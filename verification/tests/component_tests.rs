use objectpool::circuit_breaker::RECOVERY_SUCCESSES;
use objectpool::counter::count_up;
use objectpool::eviction::{EvictionTracker, ObjectMetadata};
use objectpool::health::HealthTracker;
use objectpool::metrics::MetricsTracker;
use objectpool::pool::capacity_supported;
use objectpool::text::{decimal_string, ratio_scaled};
use objectpool::{
    next_wait_step, CircuitBreaker, CircuitBreakerState, Clock, EvictionPolicy, HealthStatus,
    MetricsExporter, NoValidation, ObjectPool, PoolConfiguration, PoolError, PoolMetrics,
    Validator, WaitStep,
};
use std::time::Duration;

const MS: u128 = 1_000_000;

#[test]
fn breaker_opens_at_the_threshold_and_not_before() {
    let mut breaker = CircuitBreaker::new(3, Duration::from_secs(60));
    assert_eq!(breaker.state(), CircuitBreakerState::Closed);
    breaker.record_failure(1);
    breaker.record_failure(2);
    assert_eq!(breaker.state(), CircuitBreakerState::Closed);
    assert!(breaker.allow_request(2));
    breaker.record_failure(3);
    assert_eq!(breaker.state(), CircuitBreakerState::Open);
    assert!(!breaker.allow_request(4));
    breaker.record_failure(5);
    assert_eq!(breaker.state(), CircuitBreakerState::Open);
}

#[test]
fn breaker_counts_only_failures_that_follow_one_another() {
    let mut breaker = CircuitBreaker::new(3, Duration::from_secs(60));
    breaker.record_failure(1);
    breaker.record_failure(2);
    breaker.record_success();
    breaker.record_failure(3);
    assert_eq!(breaker.state(), CircuitBreakerState::Closed);
    assert!(breaker.allow_request(3));
    // the run that began after the success opens the breaker at its third failure
    breaker.record_failure(4);
    assert_eq!(breaker.state(), CircuitBreakerState::Closed);
    breaker.record_failure(5);
    assert_eq!(breaker.state(), CircuitBreakerState::Open);
    assert!(!breaker.allow_request(6));
}

#[test]
fn breaker_with_threshold_two_forgets_a_failure_at_a_success() {
    let mut breaker = CircuitBreaker::new(2, Duration::from_secs(60));
    breaker.record_failure(1);
    breaker.record_success();
    breaker.record_failure(2);
    assert_eq!(breaker.state(), CircuitBreakerState::Closed);
    breaker.record_failure(3);
    assert_eq!(breaker.state(), CircuitBreakerState::Open);
}

#[test]
fn breaker_probes_after_the_reset_timeout() {
    let mut breaker = CircuitBreaker::new(1, Duration::from_millis(100));
    breaker.record_failure(1000);
    assert_eq!(breaker.state(), CircuitBreakerState::Open);
    // exactly the timeout after the failure is too early
    assert!(!breaker.allow_request(1000 + 100 * MS));
    assert_eq!(breaker.state(), CircuitBreakerState::Open);
    assert!(breaker.allow_request(1000 + 100 * MS + 1));
    assert_eq!(breaker.state(), CircuitBreakerState::HalfOpen);
    assert!(breaker.allow_request(1000 + 100 * MS + 2));
}

#[test]
fn breaker_closes_after_three_successes_on_probation() {
    assert_eq!(RECOVERY_SUCCESSES, 3);
    let mut breaker = CircuitBreaker::new(1, Duration::from_millis(1));
    breaker.record_success();
    breaker.record_success();
    breaker.record_failure(0);
    assert!(breaker.allow_request(2 * MS));
    // successes before the probation do not count
    breaker.record_success();
    breaker.record_success();
    assert_eq!(breaker.state(), CircuitBreakerState::HalfOpen);
    breaker.record_success();
    assert_eq!(breaker.state(), CircuitBreakerState::Closed);
    // the failure count was cleared: one failure opens again at threshold one
    breaker.record_failure(3 * MS);
    assert_eq!(breaker.state(), CircuitBreakerState::Open);
}

#[test]
fn breaker_reopens_on_a_failure_on_probation() {
    let mut breaker = CircuitBreaker::new(5, Duration::from_millis(1));
    for at in 0..5u128 {
        breaker.record_failure(at);
    }
    assert_eq!(breaker.state(), CircuitBreakerState::Open);
    assert!(breaker.allow_request(2 * MS));
    assert_eq!(breaker.state(), CircuitBreakerState::HalfOpen);
    breaker.record_failure(2 * MS);
    assert_eq!(breaker.state(), CircuitBreakerState::Open);
    assert!(!breaker.allow_request(3 * MS));
    breaker.reset();
    assert_eq!(breaker.state(), CircuitBreakerState::Closed);
    assert!(breaker.allow_request(3 * MS));
}

#[test]
fn breaker_default_opens_at_five_failures() {
    let mut breaker = CircuitBreaker::default();
    for at in 0..4u128 {
        breaker.record_failure(at);
    }
    assert_eq!(breaker.state(), CircuitBreakerState::Closed);
    breaker.record_failure(4);
    assert_eq!(breaker.state(), CircuitBreakerState::Open);
    assert!(!breaker.allow_request(4 + 60_000 * MS));
    assert!(breaker.allow_request(5 + 60_000 * MS));
}

#[test]
fn a_breaker_with_threshold_zero_opens_at_the_first_failure() {
    let mut breaker = CircuitBreaker::new(0, Duration::from_secs(1));
    assert!(breaker.allow_request(0));
    breaker.record_failure(0);
    assert_eq!(breaker.state(), CircuitBreakerState::Open);
}

#[test]
fn metadata_stamps_and_touch() {
    let mut meta = ObjectMetadata::new(5);
    assert_eq!((meta.created_at, meta.last_used), (5, 5));
    meta.touch(9);
    assert_eq!((meta.created_at, meta.last_used), (5, 9));
    meta.touch(12);
    assert!(meta.last_used >= 9);
    assert_eq!(meta.created_at, 5);
}

#[test]
fn metadata_expiry_under_each_policy() {
    let meta = ObjectMetadata { created_at: 100, last_used: 300 };
    let ttl = EvictionPolicy::TimeToLive(Duration::from_nanos(250));
    let idle = EvictionPolicy::IdleTimeout(Duration::from_nanos(250));
    let both = EvictionPolicy::Combined {
        ttl: Duration::from_nanos(500),
        idle_timeout: Duration::from_nanos(250),
    };
    assert!(!meta.is_expired(&EvictionPolicy::Never, u128::MAX));
    assert!(!meta.is_expired(&ttl, 350));
    assert!(meta.is_expired(&ttl, 351));
    assert!(!meta.is_expired(&idle, 550));
    assert!(meta.is_expired(&idle, 551));
    assert!(!meta.is_expired(&both, 550));
    assert!(meta.is_expired(&both, 551));
    assert!(meta.is_expired(&both, 601));
    // a time before the stamps is no age at all
    assert!(!meta.is_expired(&ttl, 0));
    assert!(EvictionPolicy::default().is_never());
    assert!(!ttl.is_never());
}

#[test]
fn tracker_tracks_touches_and_forgets() {
    let mut tracker = EvictionTracker::<i32>::new(EvictionPolicy::IdleTimeout(
        Duration::from_nanos(10),
    ));
    tracker.track_object(1, 0);
    tracker.track_object(2, 0);
    assert!(!tracker.is_expired(1, 10));
    assert!(tracker.is_expired(1, 11));
    tracker.touch_object(1, 8);
    assert!(!tracker.is_expired(1, 11));
    assert!(tracker.is_expired(2, 11));
    // an object that is not tracked never expires, and a touch does not track it
    tracker.touch_object(3, 0);
    assert!(!tracker.is_expired(3, 1000));
    let mut expired = tracker.get_expired_objects(19);
    expired.sort();
    assert_eq!(expired, vec![1, 2]);
    assert_eq!(tracker.get_expired_objects(11), vec![2]);
    tracker.remove_object(2);
    assert!(!tracker.is_expired(2, 1000));
    assert_eq!(tracker.get_expired_objects(11), Vec::<usize>::new());
}

#[test]
fn tracker_without_policy_stores_nothing() {
    let mut tracker = EvictionTracker::<i32>::new(EvictionPolicy::Never);
    tracker.track_object(1, 0);
    tracker.touch_object(1, 5);
    assert!(!tracker.is_expired(1, u128::MAX));
    assert!(tracker.get_expired_objects(u128::MAX).is_empty());
}

#[test]
fn configuration_defaults() {
    let config = PoolConfiguration::<i32>::default();
    assert_eq!(config.max_pool_size, 100);
    assert_eq!(config.max_active_objects, None);
    assert!(!config.validate_on_return);
    assert!(config.validation_function.is_none());
    assert_eq!(config.operation_timeout, Some(Duration::from_secs(30)));
    assert_eq!(config.time_to_live, None);
    assert_eq!(config.idle_timeout, None);
    assert_eq!(config.warmup_size, None);
    assert!(!config.enable_circuit_breaker);
    assert_eq!(config.circuit_breaker_threshold, 5);
    assert_eq!(config.circuit_breaker_timeout, Duration::from_secs(60));
    assert!(config.eviction_policy().is_never());
    assert!(config.accepts(&1));
}

#[test]
fn configuration_builders_set_one_thing_each() {
    let config = PoolConfiguration::<i32>::new()
        .with_timeout(Duration::from_secs(10))
        .with_ttl(Duration::from_secs(300))
        .with_idle_timeout(Duration::from_secs(60))
        .with_circuit_breaker(7, Duration::from_secs(30));
    assert_eq!(config.max_pool_size, 100);
    assert_eq!(config.operation_timeout, Some(Duration::from_secs(10)));
    assert_eq!(config.time_to_live, Some(Duration::from_secs(300)));
    assert_eq!(config.idle_timeout, Some(Duration::from_secs(60)));
    assert_eq!(config.circuit_breaker_threshold, 7);
    assert_eq!(config.circuit_breaker_timeout, Duration::from_secs(30));
    assert!(matches!(
        config.eviction_policy(),
        EvictionPolicy::Combined { ttl, idle_timeout }
            if ttl == Duration::from_secs(300) && idle_timeout == Duration::from_secs(60)
    ));
    assert_eq!(config.wait_limit(), Duration::from_secs(10));
    let ttl_only = PoolConfiguration::<i32>::new().with_ttl(Duration::from_secs(1));
    assert!(matches!(ttl_only.eviction_policy(), EvictionPolicy::TimeToLive(_)));
    let idle_only = PoolConfiguration::<i32>::new().with_idle_timeout(Duration::from_secs(1));
    assert!(matches!(idle_only.eviction_policy(), EvictionPolicy::IdleTimeout(_)));
}

#[test]
fn configuration_validation_asks_the_predicate() {
    let config = PoolConfiguration::new().with_validation(|x: &i32| *x % 2 == 0);
    assert!(config.validate_on_return);
    assert!(config.accepts(&4));
    assert!(!config.accepts(&5));
    let copy = config.clone();
    assert_eq!(copy.operation_timeout, Some(Duration::from_secs(30)));
    assert_eq!(copy.circuit_breaker_timeout, Duration::from_secs(60));
    assert!(copy.accepts(&4));
    assert!(!copy.accepts(&5));
    let mut switched_off = config;
    switched_off.validate_on_return = false;
    assert!(switched_off.accepts(&5));
}

#[test]
fn a_predicate_is_any_function_and_no_validation_accepts_all() {
    let even = |x: &i32| *x % 2 == 0;
    assert!(Validator::ask(&even, &4));
    assert!(!Validator::ask(&even, &5));
    assert!(Validator::<i32>::ask(&NoValidation, &5));
    let config = PoolConfiguration::<i32>::new();
    assert!(config.validation_function.is_none());
    let mut forced = config;
    forced.validate_on_return = true;
    forced.validation_function = Some(NoValidation);
    assert!(forced.accepts(&5));
}

#[test]
fn with_validation_keeps_the_other_settings() {
    let config = PoolConfiguration::<i32>::new()
        .with_max_pool_size(7)
        .with_max_active_objects(3)
        .with_ttl(Duration::from_secs(9))
        .with_warmup(2)
        .with_circuit_breaker(4, Duration::from_secs(8))
        .with_validation(|x: &i32| *x > 0);
    assert!(config.validate_on_return);
    assert!(config.validation_function.is_some());
    assert_eq!(config.max_pool_size, 7);
    assert_eq!(config.max_active_objects, Some(3));
    assert_eq!(config.operation_timeout, Some(Duration::from_secs(30)));
    assert_eq!(config.time_to_live, Some(Duration::from_secs(9)));
    assert_eq!(config.idle_timeout, None);
    assert_eq!(config.warmup_size, Some(2));
    assert!(config.enable_circuit_breaker);
    assert_eq!(config.circuit_breaker_threshold, 4);
    assert_eq!(config.circuit_breaker_timeout, Duration::from_secs(8));
    assert!(config.accepts(&1));
    assert!(!config.accepts(&0));
}

#[test]
fn capacities_that_fit() {
    assert!(capacity_supported(3, 100));
    assert!(capacity_supported(0, 0));
    assert!(!capacity_supported(usize::MAX, 0));
    assert!(!capacity_supported(0, usize::MAX));
}

#[test]
fn wait_limit_defaults_to_thirty_seconds() {
    let mut config = PoolConfiguration::<i32>::new();
    config.operation_timeout = None;
    assert_eq!(config.wait_limit(), Duration::from_secs(30));
}

#[test]
fn waiting_hands_out_pauses_and_times_out() {
    let limit = Duration::from_millis(50);
    let mut pool = ObjectPool::new(vec![1], PoolConfiguration::default());
    let lease = pool.try_get_object();
    match next_wait_step(lease, 50 * MS, limit) {
        WaitStep::Ready(lease) => assert_eq!(*lease, 1),
        _ => panic!("a leased object is handed out even at the limit"),
    }
    assert!(matches!(next_wait_step::<i32>(None, 0, limit), WaitStep::Retry(p) if p == 10 * MS));
    assert!(matches!(
        next_wait_step::<i32>(None, 40 * MS, limit),
        WaitStep::Retry(p) if p == 10 * MS
    ));
    assert!(matches!(
        next_wait_step::<i32>(None, 45 * MS, limit),
        WaitStep::Retry(p) if p == 5 * MS
    ));
    assert!(matches!(
        next_wait_step::<i32>(None, 50 * MS, limit),
        WaitStep::TimedOut(PoolError::Timeout(d)) if d == limit
    ));
    assert!(matches!(
        next_wait_step::<i32>(None, 51 * MS, limit),
        WaitStep::TimedOut(PoolError::Timeout(_))
    ));
}

#[test]
fn clock_does_not_run_backwards() {
    let mut clock = Clock::new();
    assert_eq!(clock.last_reading(), 0);
    let first = clock.now();
    assert_eq!(clock.last_reading(), first);
    let second = clock.now();
    assert!(second >= first);
    assert_eq!(clock.last_reading(), second);
}

#[test]
fn counters_stop_at_the_top() {
    assert_eq!(count_up(0), 1);
    assert_eq!(count_up(41), 42);
    assert_eq!(count_up(usize::MAX - 1), usize::MAX);
    assert_eq!(count_up(usize::MAX), usize::MAX);
}

#[test]
fn health_tracker_counts() {
    let mut tracker = HealthTracker::new();
    assert!(tracker.is_healthy);
    tracker.increment_retrieved();
    tracker.increment_retrieved();
    tracker.increment_returned();
    tracker.increment_empty();
    tracker.increment_validation_failure();
    tracker.set_health(false);
    assert_eq!(tracker.total_retrieved, 2);
    assert_eq!(tracker.total_returned, 1);
    assert_eq!(tracker.pool_empty_count, 1);
    assert_eq!(tracker.validation_failures, 1);
    assert!(!tracker.is_healthy);
    let fresh = HealthTracker::default();
    assert_eq!(fresh.total_retrieved, 0);
    assert!(fresh.is_healthy);
}

#[test]
fn health_status_warns_above_nine_tenths() {
    let status = HealthStatus::new(1, 9, 10);
    assert!(status.is_healthy());
    assert_eq!(status.warning_count, 0);
    assert!(status.warnings.is_empty());
    assert_eq!(status.utilization_hundredths(), 90);

    let status = HealthStatus::new(1, 19, 20);
    assert!(!status.is_healthy());
    assert_eq!(status.warnings, vec!["High utilization: 95.0%".to_string()]);
    assert_eq!(status.warning_count, 1);

    let status = HealthStatus::new(0, 10, 10);
    assert!(!status.is_healthy);
    assert_eq!(
        status.warnings,
        vec!["High utilization: 100.0%".to_string(), "Pool is empty".to_string()]
    );
    assert_eq!(status.warning_count, 2);
    assert_eq!((status.available_objects, status.active_objects, status.total_capacity), (0, 10, 10));

    // an empty shelf alone is a warning, not ill health
    let status = HealthStatus::new(0, 3, 10);
    assert!(status.is_healthy);
    assert_eq!(status.warnings, vec!["Pool is empty".to_string()]);

    let status = HealthStatus::new(0, 0, 0);
    assert!(status.is_healthy);
    assert!(status.warnings.is_empty());
    assert_eq!(status.utilization_hundredths(), 0);

    let status = HealthStatus::new(1, 10, 11);
    assert_eq!(status.warnings, vec!["High utilization: 90.9%".to_string()]);
}

#[test]
fn ratios_round_to_the_nearest_unit_and_ties_to_even() {
    assert_eq!(ratio_scaled(1, 3, 100), 33);
    assert_eq!(ratio_scaled(2, 3, 100), 67);
    assert_eq!(ratio_scaled(1, 201, 100), 0);
    assert_eq!(ratio_scaled(1, 199, 100), 1);
    assert_eq!(ratio_scaled(5, 0, 100), 0);
    assert_eq!(ratio_scaled(3, 2, 100), 150);
    assert_eq!(ratio_scaled(usize::MAX, usize::MAX, 1000), 1000);
    // exact ties go to the even hundredth
    assert_eq!(ratio_scaled(1, 8, 100), 12);
    assert_eq!(ratio_scaled(3, 8, 100), 38);
    assert_eq!(ratio_scaled(5, 8, 100), 62);
    assert_eq!(ratio_scaled(7, 8, 100), 88);
    assert_eq!(ratio_scaled(1, 200, 100), 0);
    assert_eq!(ratio_scaled(3, 200, 100), 2);
}

#[test]
fn utilization_text_rounds_ties_to_even() {
    let one_of_eight = MetricsTracker::new().get_metrics(1, 7, 8);
    assert_eq!(one_of_eight.utilization_text(), "0.12");
    assert_eq!(one_of_eight.utilization_text(), format!("{:.2}", 1.0_f64 / 8.0));
    let five_of_eight = MetricsTracker::new().get_metrics(5, 3, 8);
    assert_eq!(five_of_eight.utilization_text(), "0.62");
    assert_eq!(five_of_eight.utilization_text(), format!("{:.2}", 5.0_f64 / 8.0));
    let three_of_eight = MetricsTracker::new().get_metrics(3, 5, 8);
    assert_eq!(three_of_eight.utilization_text(), format!("{:.2}", 3.0_f64 / 8.0));
    let seven_of_eight = MetricsTracker::new().get_metrics(7, 1, 8);
    assert_eq!(seven_of_eight.utilization_text(), format!("{:.2}", 7.0_f64 / 8.0));
}

#[test]
fn numbers_in_decimal() {
    assert_eq!(decimal_string(0), "0");
    assert_eq!(decimal_string(7), "7");
    assert_eq!(decimal_string(10), "10");
    assert_eq!(decimal_string(1234567890), "1234567890");
    assert_eq!(decimal_string(usize::MAX), usize::MAX.to_string());
}

#[test]
fn metrics_snapshot_and_export() {
    let mut tracker = MetricsTracker::new();
    tracker.total_retrieved = 12;
    tracker.total_returned = 10;
    tracker.pool_empty_events = 3;
    tracker.validation_failures = 1;
    let metrics = tracker.get_metrics(1, 2, 3);
    assert_eq!(metrics.total_retrieved, 12);
    assert_eq!(metrics.total_returned, 10);
    assert_eq!(metrics.active_objects, 1);
    assert_eq!(metrics.available_objects, 2);
    assert_eq!(metrics.pool_empty_events, 3);
    assert_eq!(metrics.validation_failures, 1);
    assert_eq!(metrics.max_capacity, 3);
    assert_eq!(metrics.utilization_hundredths(), 33);
    assert_eq!(metrics.utilization_text(), "0.33");
    let pairs: Vec<(String, String)> = [
        ("total_retrieved", "12"),
        ("total_returned", "10"),
        ("active_objects", "1"),
        ("available_objects", "2"),
        ("pool_empty_events", "3"),
        ("validation_failures", "1"),
        ("utilization", "0.33"),
        ("max_capacity", "3"),
    ]
    .iter()
    .map(|(k, v)| (k.to_string(), v.to_string()))
    .collect();
    assert_eq!(metrics.export(), pairs);
    let zero = MetricsTracker::default().get_metrics(0, 0, 0);
    assert_eq!(zero.utilization_text(), "0.00");
    let over = MetricsTracker::new().get_metrics(5, 0, 2);
    assert_eq!(over.utilization_text(), "2.50");
}

#[test]
fn labels_start_with_the_pool_and_keep_the_order_given() {
    assert_eq!(MetricsExporter::format_labels("p", None), "pool=\"p\"");
    let none: Vec<(String, String)> = Vec::new();
    assert_eq!(MetricsExporter::format_labels("p", Some(&none)), "pool=\"p\"");
    let tags = vec![
        ("service".to_string(), "api".to_string()),
        ("env".to_string(), "test".to_string()),
    ];
    assert_eq!(
        MetricsExporter::format_labels("my_pool", Some(&tags)),
        "pool=\"my_pool\",service=\"api\",env=\"test\""
    );
}

#[test]
fn text_exposition_golden() {
    let mut pool = ObjectPool::new(vec![1, 2, 3], PoolConfiguration::default());
    let _lease = pool.get_object().unwrap();
    let text = pool.export_metrics_prometheus("test_pool", None);
    let expected = "\
# HELP objectpool_objects_active Current active objects
# TYPE objectpool_objects_active gauge
objectpool_objects_active{pool=\"test_pool\"} 1
# HELP objectpool_objects_available Current available objects
# TYPE objectpool_objects_available gauge
objectpool_objects_available{pool=\"test_pool\"} 2
# HELP objectpool_utilization Pool utilization ratio
# TYPE objectpool_utilization gauge
objectpool_utilization{pool=\"test_pool\"} 0.01
# HELP objectpool_objects_retrieved_total Total objects retrieved
# TYPE objectpool_objects_retrieved_total counter
objectpool_objects_retrieved_total{pool=\"test_pool\"} 1
# HELP objectpool_objects_returned_total Total objects returned
# TYPE objectpool_objects_returned_total counter
objectpool_objects_returned_total{pool=\"test_pool\"} 0
# HELP objectpool_events_empty_total Pool empty events
# TYPE objectpool_events_empty_total counter
objectpool_events_empty_total{pool=\"test_pool\"} 0
# HELP objectpool_validation_failures_total Validation failures
# TYPE objectpool_validation_failures_total counter
objectpool_validation_failures_total{pool=\"test_pool\"} 0
";
    assert_eq!(text, expected);
}

#[test]
fn text_exposition_of_a_reading_with_labels() {
    let metrics = PoolMetrics {
        total_retrieved: 5,
        total_returned: 4,
        active_objects: 1,
        available_objects: 1,
        pool_empty_events: 2,
        validation_failures: 3,
        max_capacity: 2,
    };
    let tags = vec![("env".to_string(), "test".to_string())];
    let text = MetricsExporter::export_prometheus(&metrics, "p", Some(&tags));
    let samples: Vec<&str> = text.lines().filter(|line| !line.starts_with('#')).collect();
    assert_eq!(
        samples,
        vec![
            "objectpool_objects_active{pool=\"p\",env=\"test\"} 1",
            "objectpool_objects_available{pool=\"p\",env=\"test\"} 1",
            "objectpool_utilization{pool=\"p\",env=\"test\"} 0.50",
            "objectpool_objects_retrieved_total{pool=\"p\",env=\"test\"} 5",
            "objectpool_objects_returned_total{pool=\"p\",env=\"test\"} 4",
            "objectpool_events_empty_total{pool=\"p\",env=\"test\"} 2",
            "objectpool_validation_failures_total{pool=\"p\",env=\"test\"} 3",
        ]
    );
    assert_eq!(text.lines().count(), 21);
}
