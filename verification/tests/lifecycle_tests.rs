use objectpool::{
    DynamicObjectPool, ObjectPool, PoolConfiguration, PoolError, QueryableObjectPool,
};
use std::sync::atomic::{AtomicUsize, Ordering};
use std::sync::Arc;
use std::time::Duration;

const MS: u128 = 1_000_000;

#[test]
fn checkout_lends_in_shelf_order_and_returns_go_to_the_back() {
    let mut pool = ObjectPool::new(vec![10, 20, 30], PoolConfiguration::default());
    let first = pool.get_object().unwrap();
    assert_eq!(*first, 10);
    assert_eq!(first.object_id(), 0);
    let second = pool.get_object().unwrap();
    assert_eq!(*second, 20);
    assert_eq!(second.object_id(), 1);
    pool.return_object(first);
    let third = pool.get_object().unwrap();
    assert_eq!(*third, 30);
    let again = pool.get_object().unwrap();
    assert_eq!(*again, 10);
    assert_eq!(again.object_id(), 0);
    assert!(pool.is_active(0));
    assert!(pool.is_active(1));
    assert!(pool.is_active(2));
    assert_eq!(pool.available_count(), 0);
    pool.return_object(second);
    pool.return_object(third);
    pool.return_object(again);
    assert_eq!(pool.active_count(), 0);
}

#[test]
fn basic_checkout_and_return_scenario() {
    let mut pool = ObjectPool::new(vec![1, 2, 3], PoolConfiguration::default());
    let lease = pool.get_object().unwrap();
    assert!([1, 2, 3].contains(&*lease));
    assert_eq!(pool.available_count(), 2);
    assert_eq!(pool.active_count(), 1);
    pool.return_object(lease);
    assert_eq!(pool.available_count(), 3);
    assert_eq!(pool.active_count(), 0);
    let metrics = pool.get_metrics();
    assert_eq!(metrics.total_retrieved, 1);
    assert_eq!(metrics.total_returned, 1);
}

#[test]
fn entries_are_conserved_through_rejection_and_extraction() {
    let config = PoolConfiguration::new().with_max_pool_size(4).with_validation(|x: &i32| *x != 2);
    let mut pool = ObjectPool::new(vec![1, 2, 3, 4], config);
    let a = pool.get_object().unwrap();
    let b = pool.get_object().unwrap();
    let c = pool.get_object().unwrap();
    assert_eq!(*b, 2);
    pool.return_object(a);
    // the value 2 fails validation: one drop
    pool.return_object(b);
    // the holder keeps the value 3: one extraction
    let kept = pool.extract(c);
    assert_eq!(kept, 3);
    let d = pool.get_object().unwrap();
    let drops = pool.get_metrics().validation_failures;
    let extractions = 1;
    assert_eq!(drops, 1);
    assert_eq!(pool.available_count(), 1);
    assert_eq!(pool.active_count(), 1);
    assert_eq!(pool.available_count() + pool.active_count() + drops + extractions, 4);
    pool.return_object(d);
    assert_eq!(pool.available_count() + pool.active_count() + drops + extractions, 4);
    assert_eq!(pool.get_metrics().max_capacity, 4);
}

#[test]
fn no_more_checkouts_succeed_than_the_pool_holds() {
    let mut pool = ObjectPool::new(vec![1, 2, 3], PoolConfiguration::default());
    let mut leases = Vec::new();
    let mut failures = Vec::new();
    for _ in 0..5 {
        match pool.get_object() {
            Ok(lease) => leases.push(lease),
            Err(error) => failures.push(error),
        }
    }
    assert_eq!(leases.len(), 3);
    assert_eq!(failures.len(), 2);
    assert!(failures.iter().all(|e| matches!(e, PoolError::PoolEmpty)));
    assert_eq!(pool.get_metrics().pool_empty_events, 2);
}

#[test]
fn round_trips_leave_the_pool_as_it_was() {
    let mut pool = ObjectPool::new(vec![1, 2, 3], PoolConfiguration::default());
    for _ in 0..4 * 3 {
        let lease = pool.get_object().unwrap();
        pool.return_object(lease);
    }
    assert_eq!(pool.available_count(), 3);
    let metrics = pool.get_metrics();
    assert_eq!(metrics.total_retrieved, 12);
    assert_eq!(metrics.total_returned, 12);
}

#[test]
fn expired_entries_are_discarded_and_never_lent() {
    let config = PoolConfiguration::new().with_ttl(Duration::from_millis(100));
    let mut pool = ObjectPool::new_at(vec![1, 2, 3], config, 0);
    assert!(pool.try_get_object_at(150 * MS).is_none());
    assert_eq!(pool.available_count(), 0);
    assert_eq!(pool.get_metrics().pool_empty_events, 1);
}

#[test]
fn an_entry_expires_only_after_its_time_to_live() {
    let config = PoolConfiguration::new().with_ttl(Duration::from_millis(100));
    let mut pool = ObjectPool::new_at(vec![7], config, 50 * MS);
    // exactly at the limit the entry is still good
    let lease = pool.get_object_at(150 * MS).unwrap();
    assert_eq!(*lease, 7);
    pool.return_object_at(lease, 150 * MS);
    // one nanosecond past the limit it is not
    let result = pool.get_object_at(150 * MS + 1);
    assert!(matches!(result, Err(PoolError::PoolEmpty)));
    assert_eq!(pool.available_count(), 0);
}

#[test]
fn a_fresh_entry_behind_expired_ones_is_lent() {
    let config = PoolConfiguration::new().with_idle_timeout(Duration::from_millis(100));
    let mut pool = ObjectPool::new_at(vec![1, 2, 3], config, 0);
    // use the first entry at 90 ms: it goes to the back with a new stamp
    let lease = pool.get_object_at(90 * MS).unwrap();
    assert_eq!(*lease, 1);
    pool.return_object_at(lease, 90 * MS);
    // at 150 ms the two untouched entries are idle for too long
    let lease = pool.get_object_at(150 * MS).unwrap();
    assert_eq!(*lease, 1);
    assert_eq!(pool.available_count(), 0);
    assert_eq!(pool.active_count(), 1);
}

#[test]
fn combined_policy_expires_on_either_limit() {
    let config = PoolConfiguration::new()
        .with_ttl(Duration::from_millis(200))
        .with_idle_timeout(Duration::from_millis(100));
    let mut pool = ObjectPool::new_at(vec![1], config, 0);
    let lease = pool.get_object_at(90 * MS).unwrap();
    pool.return_object_at(lease, 90 * MS);
    let lease = pool.get_object_at(180 * MS).unwrap();
    pool.return_object_at(lease, 180 * MS);
    // used 30 ms ago, but made 210 ms ago
    assert!(matches!(pool.get_object_at(210 * MS), Err(PoolError::PoolEmpty)));
}

#[test]
fn a_pool_without_capacity_lends_nothing() {
    let config = PoolConfiguration::new().with_max_pool_size(0);
    let mut pool = ObjectPool::new(Vec::<i32>::new(), config);
    assert!(matches!(pool.get_object(), Err(PoolError::PoolEmpty)));
    assert!(matches!(pool.get_object(), Err(PoolError::PoolEmpty)));
    assert_eq!(pool.get_metrics().utilization_hundredths(), 0);
    assert_eq!(pool.get_health_status().utilization_hundredths(), 0);
    assert!(pool.get_health_status().is_healthy);

    let config = PoolConfiguration::new().with_max_pool_size(0);
    let mut growing = DynamicObjectPool::new(|| 1, config);
    assert!(matches!(growing.get_object(), Err(PoolError::PoolFull)));
    assert!(matches!(growing.get_object(), Err(PoolError::PoolFull)));
    growing.warmup(3).unwrap();
    assert_eq!(growing.available_count(), 0);
}

#[test]
fn a_lease_cap_of_zero_refuses_every_checkout() {
    let config = PoolConfiguration::new().with_max_active_objects(0);
    let mut pool = ObjectPool::new(vec![1, 2], config);
    assert!(matches!(pool.get_object(), Err(PoolError::MaxActiveObjectsReached)));
    assert!(matches!(pool.get_object(), Err(PoolError::MaxActiveObjectsReached)));
    assert_eq!(pool.available_count(), 2);
    assert_eq!(pool.get_metrics().pool_empty_events, 0);

    let config = PoolConfiguration::new().with_max_active_objects(0);
    let mut searched = QueryableObjectPool::new(vec![1, 2], config);
    assert!(matches!(searched.get_object(|_| true), Err(PoolError::MaxActiveObjectsReached)));
    assert_eq!(searched.available_count(), 2);
}

#[test]
fn a_validator_that_rejects_everything_empties_the_pool() {
    let config = PoolConfiguration::new().with_validation(|_: &i32| false);
    let mut pool = ObjectPool::new(vec![1, 2, 3], config);
    for _ in 0..3 {
        let lease = pool.get_object().unwrap();
        pool.return_object(lease);
    }
    assert_eq!(pool.available_count(), 0);
    assert_eq!(pool.active_count(), 0);
    let metrics = pool.get_metrics();
    assert_eq!(metrics.validation_failures, 3);
    assert_eq!(metrics.total_returned, 0);
    assert_eq!(metrics.total_retrieved, 3);
    assert!(matches!(pool.get_object(), Err(PoolError::PoolEmpty)));
}

#[test]
fn the_predicate_s_answer_decides_every_return() {
    let config = PoolConfiguration::new().with_validation(|x: &i32| *x < 10);
    let mut pool = ObjectPool::new_at(vec![1, 2], config, 0);
    let mut lease = pool.get_object_at(1).unwrap();
    // as it came, the object would pass; as it goes back, it does not
    *lease.get_mut() = 50;
    pool.return_object_at(lease, 2);
    assert_eq!(pool.available_count(), 1);
    assert_eq!(pool.get_metrics().validation_failures, 1);
    assert_eq!(pool.get_metrics().total_returned, 0);
    let mut lease = pool.get_object_at(3).unwrap();
    *lease.get_mut() = 9;
    pool.return_object_at(lease, 4);
    assert_eq!(pool.available_count(), 1);
    assert_eq!(pool.get_metrics().validation_failures, 1);
    assert_eq!(pool.get_metrics().total_returned, 1);
    assert_eq!(*pool.get_object_at(5).unwrap(), 9);

    let config = PoolConfiguration::new().with_validation(|x: &i32| *x < 10);
    let mut searched = QueryableObjectPool::new(vec![20, 5], config);
    let lease = searched.get_object(|x| *x == 20).unwrap();
    searched.return_object(lease);
    assert_eq!(searched.available_count(), 1);

    let config = PoolConfiguration::new().with_max_pool_size(2).with_validation(|x: &i32| *x < 10);
    let mut growing = DynamicObjectPool::new(|| 11, config);
    let lease = growing.get_object().unwrap();
    growing.return_object(lease);
    assert_eq!((growing.available_count(), growing.active_count()), (0, 0));
}

#[test]
fn the_verdict_decides_what_becomes_of_a_returned_object() {
    let mut pool = ObjectPool::new(vec![1, 2], PoolConfiguration::default());
    let lease = pool.get_object().unwrap();
    pool.complete_return(lease, false, 0);
    assert_eq!(pool.available_count(), 1);
    assert_eq!(pool.get_metrics().validation_failures, 1);
    let lease = pool.get_object().unwrap();
    assert_eq!(*lease, 2);
    pool.complete_return(lease, true, 0);
    assert_eq!(pool.available_count(), 1);
    assert_eq!(pool.get_metrics().total_returned, 1);
}

#[test]
fn the_breaker_opens_after_three_failures_and_refuses_the_next_checkout() {
    let config = PoolConfiguration::new().with_circuit_breaker(3, Duration::from_secs(60));
    let mut pool = ObjectPool::new_at(vec![1], config, 0);
    let lease = pool.get_object_at(0).unwrap();
    for at in 1..=3u128 {
        assert!(matches!(pool.get_object_at(at), Err(PoolError::PoolEmpty)));
    }
    assert!(matches!(pool.get_object_at(4), Err(PoolError::CircuitBreakerOpen)));
    // a refused checkout is no pool-empty event
    assert_eq!(pool.get_metrics().pool_empty_events, 3);
    // the refusal holds until sixty seconds after the last failure
    pool.return_object_at(lease, 5);
    let minute: u128 = 60_000 * MS;
    assert!(matches!(pool.get_object_at(3 + minute), Err(PoolError::CircuitBreakerOpen)));
    // after that a probe is admitted and served
    let probe = pool.get_object_at(3 + minute + 1).unwrap();
    assert_eq!(*probe, 1);
}

#[test]
fn a_changed_value_comes_back_changed() {
    let mut pool = ObjectPool::new(vec![String::from("a")], PoolConfiguration::default());
    let mut lease = pool.get_object().unwrap();
    lease.get_mut().push('b');
    assert_eq!(lease.as_str(), "ab");
    pool.return_object(lease);
    let lease = pool.get_object().unwrap();
    assert_eq!(lease.as_str(), "ab");
    assert_eq!(lease.unwrap(&mut pool), "ab");
    assert_eq!(pool.active_count(), 0);
    assert_eq!(pool.available_count(), 0);
}

#[test]
fn unwrapping_a_lease_clears_it_in_the_pool() {
    let mut pool = ObjectPool::new(vec![1, 2, 3], PoolConfiguration::default());
    let lease = pool.get_object().unwrap();
    let value = lease.unwrap(&mut pool);
    assert!([1, 2, 3].contains(&value));
    assert_eq!(pool.available_count(), 2);
    assert_eq!(pool.active_count(), 0);
    let extractions = 1;
    assert_eq!(pool.available_count() + pool.active_count() + extractions, 3);
}

#[test]
fn unwrapping_gives_a_growing_pool_its_room_back() {
    let config = PoolConfiguration::new().with_max_pool_size(1);
    let mut pool = DynamicObjectPool::new(|| 5, config);
    let lease = pool.get_object().unwrap();
    assert!(matches!(pool.get_object(), Err(PoolError::PoolFull)));
    assert_eq!(lease.unwrap(&mut pool), 5);
    assert_eq!(pool.active_count(), 0);
    let next = pool.get_object().unwrap();
    assert_eq!(next.object_id(), 2);

    let mut searched = QueryableObjectPool::new(vec![8, 9], PoolConfiguration::default());
    let lease = searched.get_object(|x| *x == 9).unwrap();
    assert_eq!(lease.unwrap(&mut searched), 9);
    assert_eq!((searched.available_count(), searched.active_count()), (1, 0));
}

#[test]
fn extraction_takes_the_object_out_for_good() {
    let mut pool = ObjectPool::new(vec![5, 6], PoolConfiguration::default());
    let lease = pool.get_object().unwrap();
    let id = lease.object_id();
    assert_eq!(pool.extract(lease), 5);
    assert!(!pool.is_active(id));
    assert_eq!(pool.active_count(), 0);
    assert_eq!(pool.available_count(), 1);
    let metrics = pool.get_metrics();
    assert_eq!(metrics.total_retrieved, 1);
    assert_eq!(metrics.total_returned, 0);
}

#[test]
fn capacity_is_the_larger_of_count_and_configured_size() {
    let small = PoolConfiguration::new().with_max_pool_size(2);
    let pool = ObjectPool::new(vec![1, 2, 3], small);
    assert_eq!(pool.get_metrics().max_capacity, 3);
    let pool = ObjectPool::new(vec![1, 2, 3], PoolConfiguration::default());
    assert_eq!(pool.get_metrics().max_capacity, 100);
}

#[test]
fn a_search_picks_the_first_match_and_keeps_the_order_of_the_rest() {
    let mut pool = QueryableObjectPool::new(vec![1, 2, 3, 2, 4], PoolConfiguration::default());
    let first = pool.get_object(|x| *x == 2).unwrap();
    assert_eq!(first.object_id(), 1);
    let second = pool.get_object(|x| *x == 2).unwrap();
    assert_eq!(second.object_id(), 3);
    assert!(matches!(pool.get_object(|x| *x == 2), Err(PoolError::NoMatchFound)));
    assert_eq!(pool.available_count(), 3);
    assert_eq!(pool.active_count(), 2);
    // the others are still on the shelf in their order: 1, 3, 4
    let a = pool.get_object(|_| true).unwrap();
    let b = pool.get_object(|_| true).unwrap();
    let c = pool.get_object(|_| true).unwrap();
    assert_eq!((*a, *b, *c), (1, 3, 4));
    pool.return_object(first);
    pool.return_object(second);
    assert!(pool.try_get_object(|x| *x == 99).is_none());
    assert_eq!(pool.available_count(), 2);
    assert_eq!(pool.extract(a), 1);
}

#[test]
fn a_search_discards_every_expired_entry() {
    let config = PoolConfiguration::new().with_idle_timeout(Duration::from_millis(100));
    let mut pool = QueryableObjectPool::new_at(vec![1, 2, 3], config, 0);
    let lease = pool.get_object_at(|x| *x == 2, 50 * MS).unwrap();
    pool.return_object_at(lease, 60 * MS);
    // at 120 ms entries 1 and 3 are stale, entry 2 is not
    let result = pool.get_object_at(|x| *x == 3, 120 * MS);
    assert!(matches!(result, Err(PoolError::NoMatchFound)));
    assert_eq!(pool.available_count(), 1);
    let lease = pool.try_get_object_at(|x| *x == 2, 120 * MS).unwrap();
    assert_eq!(lease.object_id(), 1);
}

#[test]
fn a_failed_search_counts_against_the_breaker() {
    let config = PoolConfiguration::new().with_circuit_breaker(2, Duration::from_secs(1));
    let mut pool = QueryableObjectPool::new_at(vec![1], config, 0);
    assert!(matches!(pool.get_object_at(|x| *x == 9, 1), Err(PoolError::NoMatchFound)));
    assert!(matches!(pool.get_object_at(|x| *x == 9, 2), Err(PoolError::NoMatchFound)));
    assert!(matches!(pool.get_object_at(|x| *x == 1, 3), Err(PoolError::CircuitBreakerOpen)));
    assert_eq!(pool.export_metrics()[4], ("pool_empty_events".to_string(), "0".to_string()));
}

#[test]
fn a_growing_pool_makes_objects_under_new_identities() {
    let config = PoolConfiguration::new().with_max_pool_size(3);
    let mut pool = DynamicObjectPool::with_initial(|| 0, vec![7], config);
    let first = pool.get_object().unwrap();
    assert_eq!((*first, first.object_id()), (7, 0));
    let second = pool.get_object().unwrap();
    assert_eq!((*second, second.object_id()), (0, 3));
    let third = pool.get_object().unwrap();
    assert_eq!((*third, third.object_id()), (0, 4));
    assert!(matches!(pool.get_object(), Err(PoolError::PoolFull)));
    assert!(pool.try_get_object().is_none());
    pool.return_object(second);
    let again = pool.try_get_object().unwrap();
    assert_eq!(again.object_id(), 3);
    let metrics = pool.export_metrics();
    assert_eq!(metrics[0], ("total_retrieved".to_string(), "4".to_string()));
    let kept = pool.extract(first);
    assert_eq!(kept, 7);
    assert_eq!(pool.active_count(), 2);
    assert!(pool.is_active(3));
}

#[test]
fn a_growing_pool_keeps_to_the_lease_cap() {
    let calls = Arc::new(AtomicUsize::new(0));
    let seen = calls.clone();
    let config = PoolConfiguration::new().with_max_pool_size(5).with_max_active_objects(0);
    let mut pool = DynamicObjectPool::new(
        move || {
            seen.fetch_add(1, Ordering::Relaxed);
            42
        },
        config,
    );
    assert!(matches!(pool.get_object(), Err(PoolError::MaxActiveObjectsReached)));
    assert!(pool.try_get_object().is_none());
    assert_eq!(calls.load(Ordering::Relaxed), 0);
    assert_eq!(pool.get_health_status().active_objects, 0);
    assert_eq!(pool.active_count(), 0);
}

#[test]
fn a_growing_pool_grows_up_to_the_lease_cap_and_no_further() {
    let config = PoolConfiguration::new().with_max_pool_size(5).with_max_active_objects(2);
    let mut pool = DynamicObjectPool::new(|| 7, config);
    let first = pool.get_object().unwrap();
    let second = pool.get_object().unwrap();
    assert_eq!((first.object_id(), second.object_id()), (5, 6));
    assert!(matches!(pool.get_object(), Err(PoolError::MaxActiveObjectsReached)));
    assert_eq!(pool.active_count(), 2);
    pool.return_object(first);
    let again = pool.get_object().unwrap();
    assert_eq!(again.object_id(), 5);
}

#[test]
fn a_growing_pool_does_not_grow_past_a_refusal_with_a_stocked_shelf() {
    let config = PoolConfiguration::new().with_max_pool_size(2).with_max_active_objects(0);
    let mut pool = DynamicObjectPool::new(|| 1, config);
    pool.warmup(2).unwrap();
    assert_eq!(pool.available_count(), 2);
    assert!(matches!(pool.get_object(), Err(PoolError::MaxActiveObjectsReached)));
    assert_eq!(pool.active_count(), 0);
    assert_eq!(pool.available_count(), 2);
}

#[test]
fn a_growing_pool_hands_on_the_breaker_s_refusal() {
    let config = PoolConfiguration::new()
        .with_max_pool_size(10)
        .with_circuit_breaker(2, Duration::from_secs(60));
    let mut pool = DynamicObjectPool::new_at(|| 3, config, 0);
    // each growth follows a checkout that found the shelf empty: a failure
    let first = pool.get_object_at(1).unwrap();
    let second = pool.get_object_at(2).unwrap();
    assert_eq!((*first, *second), (3, 3));
    // two failures in a row have opened the breaker
    assert!(matches!(pool.get_object_at(3), Err(PoolError::CircuitBreakerOpen)));
    assert!(pool.try_get_object_at(4).is_none());
    assert_eq!(pool.active_count(), 2);
    // an object from the shelf is a success and would have kept it closed
    pool.return_object_at(first, 5);
    let minute: u128 = 60_000 * MS;
    let probe = pool.get_object_at(2 + minute + 1).unwrap();
    assert_eq!(probe.object_id(), 10);
}

#[test]
fn warmup_fills_what_room_there_is() {
    let config = PoolConfiguration::new().with_max_pool_size(4);
    let mut pool = DynamicObjectPool::new(|| 9, config);
    let lease = pool.get_object().unwrap();
    pool.warmup(10).unwrap();
    assert_eq!(pool.available_count(), 3);
    assert_eq!(pool.active_count(), 1);
    pool.warmup(1).unwrap();
    assert_eq!(pool.available_count(), 3);
    pool.return_object(lease);
    assert_eq!(pool.available_count(), 4);
    let health = pool.get_health_status();
    assert_eq!(health.total_capacity, 4);
    let text = pool.export_metrics_prometheus("warm", None);
    assert!(text.contains("objectpool_objects_available{pool=\"warm\"} 4\n"));
}

#[test]
fn warmed_objects_expire_like_any_other() {
    let config = PoolConfiguration::new().with_max_pool_size(2).with_ttl(Duration::from_millis(10));
    let mut pool = DynamicObjectPool::new_at(|| 9, config, 0);
    pool.warmup_at(2, 0).unwrap();
    // both warmed objects are stale at 20 ms; the pool makes a new one
    let lease = pool.get_object_at(20 * MS).unwrap();
    assert_eq!(lease.object_id(), 4);
    assert_eq!(pool.available_count(), 0);
    pool.return_object_at(lease, 25 * MS);
    let lease = pool.try_get_object_at(30 * MS).unwrap();
    assert_eq!(lease.object_id(), 4);
}
