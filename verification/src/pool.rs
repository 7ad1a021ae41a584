//! The pools: a fixed pool, a pool that is searched by predicate, and a pool
//! that grows on demand.
use crate::circuit_breaker::CircuitBreaker;
use crate::collections::{
    map_contains, map_insert, map_keys, map_len, map_new, map_remove, queue_items, queue_len,
    queue_limit, queue_new, queue_pop, queue_push,
};
use crate::config::{NoValidation, PoolConfiguration, Validator};
use crate::counter::count_up;
use crate::errors::{PoolError, PoolResult};
use crate::eviction::EvictionTracker;
use crate::health::{overloaded, warning_texts, HealthStatus, HealthTracker};
use crate::metrics::{
    exposition, label_text, tag_texts, MetricsExporter, MetricsTracker, PoolMetrics,
};
use crate::pool_state::{
    capacity_for, distinct_ids, first_match, fresh_entries, gate_allows, gate_succeeded, ids_of,
    lemma_fresh_entries, lemma_stale_run_found, stale_ids, stale_run, stamped, tick, Ledger,
    PoolState,
};
use crate::time::Clock;
use crossbeam::queue::ArrayQueue;
use dashmap::DashMap;
use std::collections::HashMap;
use vstd::prelude::*;

verus! {

/// A lease: an object that is out of its pool, with the identity under
/// which the pool knows it. Whoever holds the lease has the object to
/// itself. The lease ends when it is handed back to the pool it came from,
/// which then takes the object back or discards it.
#[derive(Debug)]
pub struct PooledObject<T> {
    value: T,
    object_id: usize,
}

impl<T> View for PooledObject<T> {
    type V = (T, usize);

    closed spec fn view(&self) -> (T, usize) {
        (self.value, self.object_id)
    }
}

impl<T> PooledObject<T> {
    pub(crate) fn new(value: T, object_id: usize) -> (lease: Self)
        ensures
            lease@ == (value, object_id),
    {
        PooledObject { value, object_id }
    }

    /// The identity of the leased object.
    pub fn object_id(&self) -> (id: usize)
        ensures
            id == self@.1,
    {
        self.object_id
    }

    /// The leased object, for changes.
    pub fn get_mut(&mut self) -> (value: &mut T)
        ensures
            *value == old(self)@.0,
            final(self)@ == (*final(value), old(self)@.1),
    {
        &mut self.value
    }

    /// Ends the lease by keeping the object: the pool the lease came from
    /// forgets the object for good, and the holder has it.
    pub fn unwrap<P: LeasePool<T>>(self, pool: &mut P) -> (value: T)
        requires
            old(pool).sound(),
            old(pool).state().active.contains(self@.1),
        ensures
            final(pool).sound(),
            final(pool).settings_kept(old(pool)),
            final(pool).state() == old(pool).state().extracted(self@.1),
            value == self@.0,
    {
        pool.release(self)
    }

    /// The object, once the pool has let go of it.
    pub(crate) fn into_value(self) -> (value: T)
        ensures
            value == self@.0,
    {
        self.value
    }
}

/// A pool that leases come from: any of the pools of this crate.
pub trait LeasePool<T>: Sized {
    /// What the pool is at this moment.
    spec fn state(&self) -> PoolState<T>;

    /// Whether the pool's containers fit together and its state is well
    /// formed.
    spec fn sound(&self) -> bool;

    /// Whether the pool has the settings it had in `before`: all of it that
    /// is not its state.
    spec fn settings_kept(&self, before: &Self) -> bool;

    /// Ends a lease by letting the holder keep the object. The pool forgets
    /// the object for good.
    fn release(&mut self, lease: PooledObject<T>) -> (value: T)
        requires
            old(self).sound(),
            old(self).state().active.contains(lease@.1),
        ensures
            final(self).sound(),
            final(self).settings_kept(old(self)),
            final(self).state() == old(self).state().extracted(lease@.1),
            value == lease@.0,
    ;
}

impl<T> std::ops::Deref for PooledObject<T> {
    type Target = T;

    fn deref(&self) -> (value: &T)
        ensures
            *value == self@.0,
    {
        &self.value
    }
}

/// What a checkout handed out, as a value with its identity.
pub open spec fn lease_view<T>(leased: PoolResult<PooledObject<T>>) -> Result<
    (T, usize),
    PoolError,
> {
    match leased {
        Ok(lease) => Ok(lease@),
        Err(error) => Err(error),
    }
}

/// Whether the lease `lease` of a pool with the configuration `config` and
/// the state `before` has ended at `now` with the verdict `valid` and the
/// state `after`: the verdict is one that the configuration gives on the
/// object that came back, and the pool took the object back or discarded it
/// accordingly.
pub open spec fn return_settled<T, V: Validator<T>>(
    config: PoolConfiguration<T, V>,
    before: PoolState<T>,
    lease: (T, usize),
    valid: bool,
    now: u128,
    after: PoolState<T>,
) -> bool {
    &&& config.verdict(&lease.0, valid)
    &&& after == before.returned(lease.0, lease.1, valid, now)
}

/// What a checkout that reports a failure as `None` handed out, where
/// `failure` is the error it kept to itself.
pub open spec fn found_view<T>(leased: Option<PooledObject<T>>, failure: PoolError) -> Result<
    (T, usize),
    PoolError,
> {
    match leased {
        Some(lease) => Ok(lease@),
        None => Err(failure),
    }
}

/// Whether a pool of this capacity can be laid out in memory.
pub open spec fn capacity_fits(capacity: nat) -> bool {
    16 * capacity <= isize::MAX
}

/// Whether a pool that starts with `count` objects under a configuration
/// with room for `max_pool_size` can be laid out in memory.
pub fn capacity_supported(count: usize, max_pool_size: usize) -> (supported: bool)
    ensures
        supported == capacity_fits(capacity_for(count as nat, max_pool_size as nat)),
{
    let limit = (isize::MAX as usize) / 16;
    count <= limit && max_pool_size <= limit
}

/// A pool over a fixed set of objects.
#[verifier::reject_recursive_types(T)]
#[verifier::reject_recursive_types(V)]
pub struct ObjectPool<T, V = NoValidation> {
    available: ArrayQueue<usize>,
    shelf: HashMap<usize, T>,
    active: DashMap<usize, ()>,
    config: PoolConfiguration<T, V>,
    metrics: MetricsTracker,
    health: HealthTracker,
    eviction: EvictionTracker<T>,
    circuit_breaker: Option<CircuitBreaker>,
    next_id: usize,
    capacity: usize,
    clock: Clock,
    ledger: Ghost<Ledger>,
}

impl<T, V: Validator<T>> View for ObjectPool<T, V> {
    type V = PoolState<T>;

    closed spec fn view(&self) -> PoolState<T> {
        let ids = queue_items(self.available);
        PoolState {
            available: Seq::new(ids.len(), |i: int| (self.shelf@[ids[i]], ids[i])),
            active: map_keys(self.active),
            capacity: self.capacity as nat,
            next_id: self.next_id as nat,
            max_active: self.config.max_active_objects,
            eviction: self.eviction@,
            breaker: match self.circuit_breaker {
                Some(breaker) => Some(breaker@),
                None => None,
            },
            metrics: self.metrics,
            health: self.health,
            ledger: self.ledger@,
        }
    }
}

impl<T, V: Validator<T>> ObjectPool<T, V> {
    /// The queue has room for the capacity, and the shelf holds a value for
    /// exactly the identities in the queue.
    pub closed spec fn shelved(&self) -> bool {
        &&& queue_limit(self.available) >= self.capacity
        &&& self.shelf@.dom() =~= queue_items(self.available).to_set()
    }

    /// The pool's containers fit together, its state is well formed, and
    /// its predicate, if it has one, can be asked about every value.
    pub open spec fn wf(&self) -> bool {
        self.shelved() && self@.wf() && self.config().sound()
    }

    /// The configuration the pool was made with.
    pub closed spec fn config(&self) -> PoolConfiguration<T, V> {
        self.config
    }

    /// The latest reading of the pool's clock: the time of the last
    /// operation that took its time from the clock, and zero before the
    /// first.
    pub closed spec fn last_reading(&self) -> u128 {
        self.clock.latest()
    }

    /// Makes a pool from `objects` at `now`. The objects go on the shelf in
    /// the order given.
    pub fn new_at(objects: Vec<T>, config: PoolConfiguration<T, V>, now: u128) -> (pool: Self)
        requires
            capacity_fits(capacity_for(objects@.len(), config.max_pool_size as nat)),
            config.sound(),
        ensures
            pool.wf(),
            pool@ == PoolState::opened(objects@, config, now),
            pool.config() == config,
            pool.last_reading() == 0,
    {
        let clock = Clock::new();
        let count = objects.len();
        let capacity = if count >= config.max_pool_size {
            count
        } else {
            config.max_pool_size
        };
        let mut available = queue_new(if capacity == 0 {
            1
        } else {
            capacity
        });
        let mut shelf: HashMap<usize, T> = HashMap::new();
        let mut eviction = EvictionTracker::new(config.eviction_policy());
        let ghost all = objects@;
        let mut idx: usize = 0;
        assert(eviction@.entries =~= stamped(config.policy(), 0, now).entries);
        for object in it: objects
            invariant
                all == it.seq(),
                idx == it.index(),
                all.len() == count,
                count <= capacity,
                queue_limit(available) >= capacity,
                queue_items(available) == Seq::new(idx as nat, |i: int| i as usize),
                shelf@.dom() =~= Set::new(|id: usize| id < idx),
                forall|id: usize| id < idx ==> shelf@[id] == all[id as int],
                eviction@ == stamped(config.policy(), idx as nat, now),
        {
            eviction.track_object(idx, now);
            assert(eviction@.entries =~= stamped(config.policy(), (idx + 1) as nat, now).entries);
            let pushed = queue_push(&mut available, idx);
            assert(queue_items(available) =~= Seq::new((idx + 1) as nat, |i: int| i as usize));
            shelf.insert(idx, object);
            idx = idx + 1;
        }
        let circuit_breaker = if config.enable_circuit_breaker {
            Some(
                CircuitBreaker::new(
                    config.circuit_breaker_threshold,
                    config.circuit_breaker_timeout,
                ),
            )
        } else {
            None
        };
        let pool = ObjectPool {
            available,
            shelf,
            active: map_new(),
            config,
            metrics: MetricsTracker::new(),
            health: HealthTracker::new(),
            eviction,
            circuit_breaker,
            next_id: capacity,
            capacity,
            clock,
            ledger: Ghost(Ledger { admitted: count as nat, expired: 0, rejected: 0, extracted: 0 }),
        };
        proof {
            let opened = PoolState::opened(all, config, now);
            assert(pool@.available =~= opened.available);
            let ids = queue_items(pool.available);
            assert forall|id: usize| id < count implies ids.to_set().contains(id) by {
                assert(ids[id as int] == id);
            }
            assert(ids.to_set() =~= Set::new(|id: usize| id < count));
            PoolState::lemma_opened_wf(all, config, now);
        }
        pool
    }

    /// Makes a pool from `objects`, stamped with time zero: the start of the
    /// pool's own clock.
    pub fn new(objects: Vec<T>, config: PoolConfiguration<T, V>) -> (pool: Self)
        requires
            capacity_fits(capacity_for(objects@.len(), config.max_pool_size as nat)),
            config.sound(),
        ensures
            pool.wf(),
            pool@ == PoolState::opened(objects@, config, 0),
            pool.config() == config,
            pool.last_reading() == 0,
    {
        Self::new_at(objects, config, 0)
    }

    /// The number of objects on the shelf.
    pub fn available_count(&self) -> (count: usize)
        ensures
            count == self@.available.len(),
    {
        queue_len(&self.available)
    }

    /// The number of objects on lease.
    pub fn active_count(&self) -> (count: usize)
        requires
            self.wf(),
        ensures
            count == self@.active.len(),
    {
        map_len(&self.active)
    }

    /// Whether `id` is on lease.
    pub fn is_active(&self, id: usize) -> (active: bool)
        ensures
            active == self@.active.contains(id),
    {
        map_contains(&self.active, id)
    }

    /// Asks the circuit breaker, if there is one, whether a checkout at
    /// `now` may go ahead.
    fn check_circuit_breaker(&mut self, now: u128) -> (checked: PoolResult<()>)
        ensures
            final(self)@ == old(self)@.screened(now),
            old(self).shelved() ==> final(self).shelved(),
            final(self).config() == old(self).config(),
            final(self).last_reading() == old(self).last_reading(),
            checked is Ok <==> gate_allows(old(self)@.breaker, now),
            checked matches Err(error) ==> error == PoolError::CircuitBreakerOpen,
    {
        let admitted = match &mut self.circuit_breaker {
            Some(breaker) => breaker.allow_request(now),
            None => true,
        };
        assert(self@.available =~= old(self)@.available);
        if admitted {
            Ok(())
        } else {
            Err(PoolError::CircuitBreakerOpen)
        }
    }

    /// Checks the cap on simultaneous leases.
    fn check_max_active(&self) -> (checked: PoolResult<()>)
        requires
            self@.active.finite(),
        ensures
            checked is Ok <==> !self@.at_lease_cap(),
            checked matches Err(error) ==> error == PoolError::MaxActiveObjectsReached,
    {
        match self.config.max_active_objects {
            Some(cap) => {
                if map_len(&self.active) >= cap {
                    Err(PoolError::MaxActiveObjectsReached)
                } else {
                    Ok(())
                }
            },
            None => Ok(()),
        }
    }

    /// Takes the first entry off the shelf, if there is one.
    fn take_front(&mut self) -> (entry: Option<(T, usize)>)
        requires
            old(self).shelved(),
            distinct_ids(old(self)@.available),
        ensures
            final(self).shelved(),
            final(self).config() == old(self).config(),
            final(self).last_reading() == old(self).last_reading(),
            entry is Some <==> old(self)@.available.len() > 0,
            entry is None ==> final(self)@ == old(self)@,
            entry matches Some(front) ==> front == old(self)@.available[0] && final(self)@ == (
            PoolState { available: old(self)@.available.drop_first(), ..old(self)@ }),
    {
        let ghost before = self@;
        let ghost ids = queue_items(self.available);
        assert(ids.len() == before.available.len());
        match queue_pop(&mut self.available) {
            Some(id) => {
                assert(ids[0] == before.available[0].1);
                assert(ids.to_set().contains(id));
                let value = self.shelf.remove(&id).unwrap();
                proof {
                    let rest = ids.drop_first();
                    assert forall|i: int| 0 <= i < rest.len() implies rest[i] != id by {
                        assert(before.available[i + 1].1 == rest[i]);
                    }
                    assert(rest.to_set() =~= ids.to_set().remove(id)) by {
                        assert forall|other: usize| rest.to_set().contains(other) implies ids.to_set().contains(
                            other,
                        ) && other != id by {
                            let i = choose|i: int| 0 <= i < rest.len() && rest[i] == other;
                            assert(ids[i + 1] == other);
                        }
                        assert forall|other: usize|
                            ids.to_set().contains(other) && other != id implies rest.to_set().contains(
                            other,
                        ) by {
                            let i = choose|i: int| 0 <= i < ids.len() && ids[i] == other;
                            assert(rest[i - 1] == other);
                        }
                    }
                    assert(self@.available =~= before.available.drop_first());
                }
                Some((value, id))
            },
            None => {
                assert(self@.available =~= before.available);
                None
            },
        }
    }

    /// Puts an entry at the back of a shelf that has room for it.
    fn put_back(&mut self, value: T, id: usize)
        requires
            old(self).shelved(),
            old(self)@.available.len() < old(self)@.capacity,
            !ids_of(old(self)@.available).contains(id),
        ensures
            final(self).shelved(),
            final(self).config() == old(self).config(),
            final(self).last_reading() == old(self).last_reading(),
            final(self)@ == (PoolState {
                available: old(self)@.available.push((value, id)),
                ..old(self)@
            }),
    {
        let ghost before = self@;
        let ghost ids = queue_items(self.available);
        proof {
            assert(ids.len() == before.available.len());
            assert forall|i: int| 0 <= i < ids.len() implies ids[i] != id by {
                assert(before.available[i].1 == ids[i]);
            }
        }
        match queue_push(&mut self.available, id) {
            Ok(()) => {
                self.shelf.insert(id, value);
                proof {
                    assert(ids.push(id).to_set() =~= ids.to_set().insert(id)) by {
                        assert forall|other: usize| ids.to_set().insert(id).contains(
                            other,
                        ) implies ids.push(id).to_set().contains(other) by {
                            if other == id {
                                assert(ids.push(id)[ids.len() as int] == id);
                            } else {
                                let i = choose|i: int| 0 <= i < ids.len() && ids[i] == other;
                                assert(ids.push(id)[i] == other);
                            }
                        }
                    }
                    assert(self@.available =~= before.available.push((value, id)));
                }
            },
            // The queue has room for the capacity, and the shelf holds less.
            Err(_) => {},
        }
    }

    /// Books the entry `id`, which has just left the shelf, as lent at
    /// `now`.
    fn book_lease(&mut self, id: usize, now: u128)
        ensures
            old(self).shelved() ==> final(self).shelved(),
            final(self).config() == old(self).config(),
            final(self).last_reading() == old(self).last_reading(),
            final(self)@ == (PoolState {
                active: old(self)@.active.insert(id),
                eviction: old(self)@.eviction.touch(id, now),
                metrics: MetricsTracker {
                    total_retrieved: tick(old(self)@.metrics.total_retrieved),
                    ..old(self)@.metrics
                },
                health: HealthTracker {
                    total_retrieved: tick(old(self)@.health.total_retrieved),
                    ..old(self)@.health
                },
                breaker: gate_succeeded(old(self)@.breaker),
                ..old(self)@
            }),
    {
        map_insert(&mut self.active, id);
        self.eviction.touch_object(id, now);
        self.metrics.total_retrieved = count_up(self.metrics.total_retrieved);
        self.health.increment_retrieved();
        match &mut self.circuit_breaker {
            Some(breaker) => {
                breaker.record_success();
            },
            None => {},
        }
        assert(self@.available =~= old(self)@.available);
    }

    /// Records with the circuit breaker, if there is one, that a checkout
    /// at `now` found nothing to lend.
    fn book_failure(&mut self, now: u128)
        ensures
            old(self).shelved() ==> final(self).shelved(),
            final(self).config() == old(self).config(),
            final(self).last_reading() == old(self).last_reading(),
            final(self)@ == old(self)@.unmatched(now),
    {
        match &mut self.circuit_breaker {
            Some(breaker) => {
                breaker.record_failure(now);
            },
            None => {},
        }
        assert(self@.available =~= old(self)@.available);
    }

    /// Forgets the entry `id`, which has just left the shelf, as expired.
    fn discard_expired(&mut self, id: usize)
        ensures
            old(self).shelved() ==> final(self).shelved(),
            final(self).config() == old(self).config(),
            final(self).last_reading() == old(self).last_reading(),
            final(self)@ == (PoolState {
                eviction: old(self)@.eviction.remove(id),
                ledger: Ledger {
                    expired: old(self)@.ledger.expired + 1,
                    ..old(self)@.ledger
                },
                ..old(self)@
            }),
    {
        self.eviction.remove_object(id);
        proof {
            self.ledger@ = Ledger { expired: self.ledger@.expired + 1, ..self.ledger@ };
            assert(self@.available =~= old(self)@.available);
        }
    }

    /// Takes entries off the shelf until one has not expired, and discards
    /// the expired ones on the way.
    fn pop_fresh(&mut self, now: u128) -> (entry: Option<(T, usize)>)
        requires
            old(self).wf(),
        ensures
            final(self).shelved(),
            final(self).config() == old(self).config(),
            final(self).last_reading() == old(self).last_reading(),
            entry is Some <==> stale_run(old(self)@.available, old(self)@.eviction, now) < old(
                self,
            )@.available.len(),
            entry is None ==> final(self)@ == old(self)@.swept(old(self)@.available.len()),
            entry matches Some(found) ==> {
                let k = stale_run(old(self)@.available, old(self)@.eviction, now);
                let swept = old(self)@.swept(k);
                &&& found == old(self)@.available[k as int]
                &&& final(self)@ == (PoolState { available: swept.available.drop_first(), ..swept })
            },
    {
        let ghost before = self@;
        let ghost mut k: nat = 0;
        proof {
            assert(before.swept(0).available =~= before.available);
            assert(ids_of(before.available.take(0)) =~= Set::<usize>::empty());
            assert(before.swept(0).eviction.entries =~= before.eviction.entries);
        }
        loop
            invariant
                before == old(self)@,
                before.wf(),
                self.shelved(),
                self.config() == old(self).config(),
                self.last_reading() == old(self).last_reading(),
                k <= before.available.len(),
                self@ == before.swept(k),
                forall|i: int|
                    0 <= i < k ==> before.eviction.expired((#[trigger] before.available[i]).1, now),
            decreases before.available.len() - k,
        {
            proof {
                lemma_suffix_distinct(before.available, k);
            }
            match self.take_front() {
                Some((value, id)) => {
                    proof {
                        assert(before.swept(k).available[0] == before.available[k as int]);
                        lemma_id_not_in_prefix(before, k);
                    }
                    if self.eviction.is_expired(id, now) {
                        self.discard_expired(id);
                        proof {
                            lemma_prefix_ids_grow(before.available, k);
                            assert(self@.eviction.entries =~= before.swept(k + 1).eviction.entries);
                            assert(self@.available =~= before.swept(k + 1).available);
                            k = k + 1;
                        }
                    } else {
                        proof {
                            lemma_stale_run_found(before.available, before.eviction, now, k);
                        }
                        return Some((value, id));
                    }
                },
                None => {
                    proof {
                        assert(k == before.available.len());
                        lemma_stale_run_found(before.available, before.eviction, now, k);
                    }
                    return None;
                },
            }
        }
    }

    /// Takes every entry off the shelf, discards the expired ones and hands
    /// the others over in their order.
    fn drain_fresh(&mut self, now: u128) -> (fresh: Vec<(T, usize)>)
        requires
            old(self).wf(),
        ensures
            final(self).shelved(),
            final(self).config() == old(self).config(),
            final(self).last_reading() == old(self).last_reading(),
            fresh@ == old(self)@.drained(now).available,
            final(self)@ == (PoolState { available: Seq::empty(), ..old(self)@.drained(now) }),
    {
        let ghost before = self@;
        let ghost mut seen: nat = 0;
        let mut fresh: Vec<(T, usize)> = Vec::new();
        proof {
            assert(before.available.skip(0) =~= before.available);
            assert(before.available.take(0) =~= Seq::empty());
            assert(stale_ids(before.available.take(0), before.eviction, now) =~= Set::<
                usize,
            >::empty());
            assert(before.eviction.entries.remove_keys(Set::<usize>::empty())
                =~= before.eviction.entries);
        }
        loop
            invariant
                before == old(self)@,
                before.wf(),
                self.shelved(),
                self.config() == old(self).config(),
                self.last_reading() == old(self).last_reading(),
                seen <= before.available.len(),
                fresh@ == fresh_entries(before.available.take(seen as int), before.eviction, now),
                self@ == (PoolState {
                    available: before.available.skip(seen as int),
                    eviction: crate::eviction::EvictionState {
                        entries: before.eviction.entries.remove_keys(
                            stale_ids(before.available.take(seen as int), before.eviction, now),
                        ),
                        ..before.eviction
                    },
                    ledger: Ledger {
                        expired: before.ledger.expired + (seen - fresh@.len()) as nat,
                        ..before.ledger
                    },
                    ..before
                }),
            decreases before.available.len() - seen,
        {
            proof {
                lemma_suffix_distinct(before.available, seen);
                lemma_fresh_entries(before.available.take(seen as int), before.eviction, now);
            }
            match self.take_front() {
                Some((value, id)) => {
                    let ghost longer = before.available.take(seen as int + 1);
                    proof {
                        assert(before.available.skip(seen as int)[0] == before.available[seen as int]);
                        assert(longer.drop_last() =~= before.available.take(seen as int));
                        assert(longer.last() == before.available[seen as int]);
                        lemma_id_not_in_prefix(before, seen);
                        lemma_prefix_ids_grow(before.available, seen);
                        assert(before.available.skip(seen as int).drop_first()
                            =~= before.available.skip(seen as int + 1));
                    }
                    if self.eviction.is_expired(id, now) {
                        self.discard_expired(id);
                        proof {
                            assert(stale_ids(longer, before.eviction, now) =~= stale_ids(
                                before.available.take(seen as int),
                                before.eviction,
                                now,
                            ).insert(id));
                            assert(self@.eviction.entries =~= before.eviction.entries.remove_keys(
                                stale_ids(longer, before.eviction, now),
                            ));
                        }
                    } else {
                        fresh.push((value, id));
                        proof {
                            assert(stale_ids(longer, before.eviction, now) =~= stale_ids(
                                before.available.take(seen as int),
                                before.eviction,
                                now,
                            ));
                        }
                    }
                    proof {
                        seen = seen + 1;
                    }
                },
                None => {
                    proof {
                        assert(seen == before.available.len());
                        assert(before.available.take(seen as int) =~= before.available);
                        assert(self@.available =~= Seq::empty());
                    }
                    return fresh;
                },
            }
        }
    }

    /// Puts `entries` on an empty shelf, in their order.
    fn restock(&mut self, entries: Vec<(T, usize)>)
        requires
            old(self).shelved(),
            old(self)@.available.len() == 0,
            distinct_ids(entries@),
            entries@.len() <= old(self)@.capacity,
        ensures
            final(self).shelved(),
            final(self).config() == old(self).config(),
            final(self).last_reading() == old(self).last_reading(),
            final(self)@ == (PoolState { available: entries@, ..old(self)@ }),
    {
        let ghost all = entries@;
        let ghost before = self@;
        assert(before.available =~= all.take(0));
        for entry in it: entries
            invariant
                all == it.seq(),
                distinct_ids(all),
                all.len() <= before.capacity,
                self.shelved(),
                self.config() == old(self).config(),
                self.last_reading() == old(self).last_reading(),
                self@ == (PoolState { available: all.take(it.index()), ..before }),
        {
            let ghost n = it.index();
            proof {
                if ids_of(all.take(n)).contains(entry.1) {
                    let i = choose|i: int| 0 <= i < n && all.take(n)[i].1 == entry.1;
                    assert(all[i].1 != all[n].1);
                }
            }
            self.put_back(entry.0, entry.1);
            assert(all.take(n).push(entry) =~= all.take(n + 1));
        }
        assert(all.take(all.len() as int) =~= all);
    }

    /// Checks out an object at `now`.
    ///
    /// The circuit breaker is asked first, then the cap on leases. An
    /// admitted checkout discards the expired entries at the front of the
    /// shelf and lends the first entry behind them; with none left it fails
    /// with `PoolEmpty`.
    pub fn get_object_at(&mut self, now: u128) -> (leased: PoolResult<PooledObject<T>>)
        requires
            old(self).wf(),
        ensures
            final(self).wf(),
            final(self).config() == old(self).config(),
            final(self).last_reading() == old(self).last_reading(),
            final(self)@ == old(self)@.checkout(now).0,
            lease_view(leased) == old(self)@.checkout(now).1,
    {
        proof {
            old(self)@.lemma_checkout_wf(now);
        }
        if let Err(error) = self.check_circuit_breaker(now) {
            return Err(error);
        }
        if let Err(error) = self.check_max_active() {
            return Err(error);
        }
        let ghost screened = self@;
        match self.pop_fresh(now) {
            Some((value, id)) => {
                let ghost k = stale_run(screened.available, screened.eviction, now);
                let ghost swept = screened.swept(k);
                self.book_lease(id, now);
                proof {
                    assert(swept.available[0] == screened.available[k as int]);
                    assert(self@.available =~= swept.lent(0, now).available);
                    assert(self@ == swept.lent(0, now));
                }
                Ok(PooledObject::new(value, id))
            },
            None => {
                self.metrics.pool_empty_events = count_up(self.metrics.pool_empty_events);
                self.health.increment_empty();
                self.book_failure(now);
                proof {
                    let k = screened.available.len();
                    assert(self@.available =~= screened.swept(k).missed(now).available);
                    assert(self@ == screened.swept(k).missed(now));
                }
                Err(PoolError::PoolEmpty)
            },
        }
    }

    /// Checks out an object now: reads the pool's clock and checks out at
    /// the time read, which is not before any earlier reading and becomes
    /// the latest.
    pub fn get_object(&mut self) -> (leased: PoolResult<PooledObject<T>>)
        requires
            old(self).wf(),
        ensures
            final(self).wf(),
            final(self).config() == old(self).config(),
            final(self).last_reading() >= old(self).last_reading(),
            final(self)@ == old(self)@.checkout(final(self).last_reading()).0,
            lease_view(leased) == old(self)@.checkout(final(self).last_reading()).1,
    {
        let now = self.clock.now();
        assert(self@ == old(self)@);
        self.get_object_at(now)
    }

    /// Checks out an object at `now`, with a failure reported as `None`.
    pub fn try_get_object_at(&mut self, now: u128) -> (leased: Option<PooledObject<T>>)
        requires
            old(self).wf(),
        ensures
            final(self).wf(),
            final(self).config() == old(self).config(),
            final(self).last_reading() == old(self).last_reading(),
            final(self)@ == old(self)@.checkout(now).0,
            match leased {
                Some(lease) => old(self)@.checkout(now).1 == Ok::<(T, usize), PoolError>(lease@),
                None => old(self)@.checkout(now).1 is Err,
            },
    {
        match self.get_object_at(now) {
            Ok(lease) => Some(lease),
            Err(_) => None,
        }
    }

    /// Checks out an object now, by the pool's clock, with a failure
    /// reported as `None`.
    pub fn try_get_object(&mut self) -> (leased: Option<PooledObject<T>>)
        requires
            old(self).wf(),
        ensures
            final(self).wf(),
            final(self).config() == old(self).config(),
            final(self).last_reading() >= old(self).last_reading(),
            final(self)@ == old(self)@.checkout(final(self).last_reading()).0,
            match leased {
                Some(lease) => old(self)@.checkout(final(self).last_reading()).1 == Ok::<
                    (T, usize),
                    PoolError,
                >(lease@),
                None => old(self)@.checkout(final(self).last_reading()).1 is Err,
            },
    {
        let now = self.clock.now();
        assert(self@ == old(self)@);
        self.try_get_object_at(now)
    }

    /// Ends the lease on an object at `now`, with the verdict of validation
    /// in hand. An object that passed goes to the back of the shelf; one
    /// that failed is discarded and counted.
    pub fn complete_return(&mut self, lease: PooledObject<T>, valid: bool, now: u128)
        requires
            old(self).wf(),
            old(self)@.active.contains(lease@.1),
        ensures
            final(self).wf(),
            final(self).config() == old(self).config(),
            final(self).last_reading() == old(self).last_reading(),
            final(self)@ == old(self)@.returned(lease@.0, lease@.1, valid, now),
    {
        let ghost before = self@;
        let id = lease.object_id();
        let value = lease.into_value();
        proof {
            before.lemma_returned_wf(value, id, valid, now);
        }
        if !valid {
            self.metrics.validation_failures = count_up(self.metrics.validation_failures);
            map_remove(&mut self.active, id);
            self.eviction.remove_object(id);
            proof {
                self.ledger@ = Ledger { rejected: self.ledger@.rejected + 1, ..self.ledger@ };
                assert(self@.available =~= before.available);
            }
            return ;
        }
        self.eviction.touch_object(id, now);
        map_remove(&mut self.active, id);
        proof {
            assert(self@.available =~= before.available);
            assert(before.active.len() > 0);
            if ids_of(before.available).contains(id) {
                let i = choose|i: int|
                    0 <= i < before.available.len() && before.available[i].1 == id;
                assert(!before.active.contains(before.available[i].1));
            }
        }
        self.put_back(value, id);
        self.metrics.total_returned = count_up(self.metrics.total_returned);
        self.health.increment_returned();
    }

    /// Ends the lease on an object at `now`. Where validation on return is
    /// configured the predicate is asked about the object, and its answer
    /// decides whether the object is taken back or discarded; where it is
    /// not, the object is taken back.
    pub fn return_object_at(&mut self, lease: PooledObject<T>, now: u128)
        requires
            old(self).wf(),
            old(self)@.active.contains(lease@.1),
        ensures
            final(self).wf(),
            final(self).config() == old(self).config(),
            final(self).last_reading() == old(self).last_reading(),
            exists|valid: bool| #[trigger]
                return_settled(old(self).config(), old(self)@, lease@, valid, now, final(self)@),
            !old(self).config().validates() ==> final(self)@ == old(self)@.returned(
                lease@.0,
                lease@.1,
                true,
                now,
            ),
    {
        let valid = self.config.accepts(&lease);
        self.complete_return(lease, valid, now);
        assert(return_settled(old(self).config(), old(self)@, lease@, valid, now, self@));
    }

    /// Ends the lease on an object now: reads the pool's clock and ends the
    /// lease at the time read.
    pub fn return_object(&mut self, lease: PooledObject<T>)
        requires
            old(self).wf(),
            old(self)@.active.contains(lease@.1),
        ensures
            final(self).wf(),
            final(self).config() == old(self).config(),
            final(self).last_reading() >= old(self).last_reading(),
            exists|valid: bool| #[trigger]
                return_settled(
                    old(self).config(),
                    old(self)@,
                    lease@,
                    valid,
                    final(self).last_reading(),
                    final(self)@,
                ),
            !old(self).config().validates() ==> final(self)@ == old(self)@.returned(
                lease@.0,
                lease@.1,
                true,
                final(self).last_reading(),
            ),
    {
        let now = self.clock.now();
        assert(self@ == old(self)@);
        self.return_object_at(lease, now)
    }

    /// Ends a lease by letting the holder keep the object. The pool forgets
    /// the object for good.
    pub fn extract(&mut self, lease: PooledObject<T>) -> (value: T)
        requires
            old(self).wf(),
            old(self)@.active.contains(lease@.1),
        ensures
            final(self).wf(),
            final(self).config() == old(self).config(),
            final(self).last_reading() == old(self).last_reading(),
            final(self)@ == old(self)@.extracted(lease@.1),
            value == lease@.0,
    {
        let id = lease.object_id();
        proof {
            self@.lemma_extracted_wf(id);
        }
        map_remove(&mut self.active, id);
        self.eviction.remove_object(id);
        proof {
            self.ledger@ = Ledger { extracted: self.ledger@.extracted + 1, ..self.ledger@ };
            assert(self@.available =~= old(self)@.available);
        }
        lease.into_value()
    }

    /// A judgement of the pool from its gauges.
    pub fn get_health_status(&self) -> (status: HealthStatus)
        requires
            self.wf(),
        ensures
            status.is_healthy == !overloaded(self@.active.len(), self@.capacity),
            status.warnings.deep_view() == warning_texts(
                self@.available.len(),
                self@.active.len(),
                self@.capacity,
            ),
            status.warning_count == status.warnings@.len(),
            status.available_objects == self@.available.len(),
            status.active_objects == self@.active.len(),
            status.total_capacity == self@.capacity,
    {
        HealthStatus::new(queue_len(&self.available), map_len(&self.active), self.capacity)
    }

    /// A reading of the counters and gauges.
    pub fn get_metrics(&self) -> (metrics: PoolMetrics)
        requires
            self.wf(),
        ensures
            metrics == self@.metrics.snapshot(
                self@.active.len() as usize,
                self@.available.len() as usize,
                self@.capacity as usize,
            ),
    {
        self.metrics.get_metrics(map_len(&self.active), queue_len(&self.available), self.capacity)
    }

    /// The reading as pairs of name and value.
    pub fn export_metrics(&self) -> (pairs: Vec<(String, String)>)
        requires
            self.wf(),
        ensures
            pairs.deep_view() == self@.metrics.snapshot(
                self@.active.len() as usize,
                self@.available.len() as usize,
                self@.capacity as usize,
            ).exported(),
    {
        self.get_metrics().export()
    }

    /// The reading in the text exposition format, every sample labelled
    /// with `pool_name` and `tags`.
    pub fn export_metrics_prometheus(
        &self,
        pool_name: &str,
        tags: Option<&Vec<(String, String)>>,
    ) -> (text: String)
        requires
            self.wf(),
        ensures
            text@ == exposition(
                self@.metrics.snapshot(
                    self@.active.len() as usize,
                    self@.available.len() as usize,
                    self@.capacity as usize,
                ),
                label_text(pool_name@, tag_texts(tags)),
            ),
    {
        let metrics = self.get_metrics();
        MetricsExporter::export_prometheus(&metrics, pool_name, tags)
    }
}

impl<T, V: Validator<T>> LeasePool<T> for ObjectPool<T, V> {
    open spec fn state(&self) -> PoolState<T> {
        self@
    }

    open spec fn sound(&self) -> bool {
        self.wf()
    }

    open spec fn settings_kept(&self, before: &Self) -> bool {
        self.config() == before.config() && self.last_reading() == before.last_reading()
    }

    fn release(&mut self, lease: PooledObject<T>) -> (value: T) {
        self.extract(lease)
    }
}

/// Searches `entries` from the front for one whose value `query` accepts,
/// and hands it over together with the others in their order.
fn select_first<T, F: Fn(&T) -> bool>(entries: Vec<(T, usize)>, query: &F) -> (split: (
    Option<(T, usize)>,
    Vec<(T, usize)>,
    Ghost<Option<int>>,
))
    requires
        forall|value: &T| call_requires(*query, (value,)),
    ensures
        first_match(*query, entries@, split.2@),
        match split.2@ {
            Some(at) => split.0 == Some(entries@[at]) && split.1@ == entries@.remove(at),
            None => split.0 is None && split.1@ == entries@,
        },
{
    let ghost all = entries@;
    let ghost mut pick: Option<int> = None;
    let mut found: Option<(T, usize)> = None;
    let mut others: Vec<(T, usize)> = Vec::new();
    assert(all.take(0) =~= Seq::empty());
    for entry in it: entries
        invariant
            all == it.seq(),
            forall|value: &T| call_requires(*query, (value,)),
            first_match(*query, all.take(it.index()), pick),
            match pick {
                Some(at) => found == Some(all[at]) && others@ == all.take(it.index()).remove(at),
                None => found is None && others@ == all.take(it.index()),
            },
    {
        let ghost n = it.index();
        let ghost seen = all.take(n);
        let ghost more = all.take(n + 1);
        proof {
            assert forall|i: int| 0 <= i < n implies seen[i] == more[i] by {}
            assert(more[n] == entry);
        }
        if found.is_none() {
            if query(&entry.0) {
                found = Some(entry);
                proof {
                    pick = Some(n);
                    assert(more.remove(n) =~= seen);
                }
            } else {
                others.push(entry);
                assert(seen.push(entry) =~= more);
            }
        } else {
            others.push(entry);
            proof {
                let at = pick->Some_0;
                assert(seen.remove(at).push(entry) =~= more.remove(at));
            }
        }
    }
    assert(all.take(all.len() as int) =~= all);
    (found, others, Ghost(pick))
}

/// A pool that is searched: a checkout names a predicate and gets the first
/// entry on the shelf whose value satisfies it.
#[verifier::reject_recursive_types(T)]
#[verifier::reject_recursive_types(V)]
pub struct QueryableObjectPool<T, V = NoValidation> {
    inner: ObjectPool<T, V>,
}

impl<T, V: Validator<T>> View for QueryableObjectPool<T, V> {
    type V = PoolState<T>;

    closed spec fn view(&self) -> PoolState<T> {
        self.inner@
    }
}

impl<T, V: Validator<T>> QueryableObjectPool<T, V> {
    /// The pool's containers fit together and its state is well formed.
    pub closed spec fn wf(&self) -> bool {
        self.inner.wf()
    }

    /// The configuration the pool was made with.
    pub closed spec fn config(&self) -> PoolConfiguration<T, V> {
        self.inner.config()
    }

    /// The latest reading of the pool's clock: the time of the last
    /// operation that took its time from the clock, and zero before the
    /// first.
    pub closed spec fn last_reading(&self) -> u128 {
        self.inner.last_reading()
    }

    /// A well-formed pool has a well-formed state, which the lemma hands
    /// out.
    pub proof fn lemma_wf(&self) -> (state: PoolState<T>)
        requires
            self.wf(),
        ensures
            state == self@,
            state.wf(),
    {
        self@
    }

    /// Makes a pool from `objects` at `now`.
    pub fn new_at(objects: Vec<T>, config: PoolConfiguration<T, V>, now: u128) -> (pool: Self)
        requires
            capacity_fits(
                capacity_for(objects@.len(), config.max_pool_size as nat),
            ),
            config.sound(),
        ensures
            pool.wf(),
            pool@ == PoolState::opened(objects@, config, now),
            pool.config() == config,
            pool.last_reading() == 0,
    {
        QueryableObjectPool { inner: ObjectPool::new_at(objects, config, now) }
    }

    /// Makes a pool from `objects`, stamped with time zero.
    pub fn new(objects: Vec<T>, config: PoolConfiguration<T, V>) -> (pool: Self)
        requires
            capacity_fits(
                capacity_for(objects@.len(), config.max_pool_size as nat),
            ),
            config.sound(),
        ensures
            pool.wf(),
            pool@ == PoolState::opened(objects@, config, 0),
            pool.config() == config,
            pool.last_reading() == 0,
    {
        QueryableObjectPool { inner: ObjectPool::new(objects, config) }
    }

    /// Checks out, at `now`, the first object on the shelf that `query`
    /// accepts.
    ///
    /// Admission is as for any checkout. An admitted search takes every
    /// expired entry off the shelf, asks `query` about the values of the
    /// others from the front until it accepts one, and lends that entry; the
    /// entries it did not pick keep their order. If `query` accepts none the
    /// search fails with `NoMatchFound` and the circuit breaker records a
    /// failure.
    pub fn get_object_at<F: Fn(&T) -> bool>(&mut self, query: F, now: u128) -> (leased: PoolResult<
        PooledObject<T>,
    >)
        requires
            old(self).wf(),
            forall|value: &T| call_requires(query, (value,)),
        ensures
            final(self).wf(),
            final(self).config() == old(self).config(),
            final(self).last_reading() == old(self).last_reading(),
            exists|pick: Option<int>| #[trigger]
                old(self)@.searched_with(query, now, pick, final(self)@, lease_view(leased)),
    {
        let ghost before = self.inner@;
        if let Err(error) = self.inner.check_circuit_breaker(now) {
            let refused: PoolResult<PooledObject<T>> = Err(error);
            assert(old(self)@.searched_with(query, now, None, self@, lease_view(refused)));
            return refused;
        }
        if let Err(error) = self.inner.check_max_active() {
            let refused: PoolResult<PooledObject<T>> = Err(error);
            assert(old(self)@.searched_with(query, now, None, self@, lease_view(refused)));
            return refused;
        }
        let ghost screened = self.inner@;
        proof {
            screened.lemma_drained_wf(now);
            lemma_fresh_entries(screened.available, screened.eviction, now);
        }
        let fresh = self.inner.drain_fresh(now);
        let (found, others, Ghost(pick)) = select_first(fresh, &query);
        proof {
            if let Some(at) = pick {
                lemma_removed_distinct(fresh@, at);
            }
        }
        self.inner.restock(others);
        let outcome = match found {
            Some((value, id)) => {
                self.inner.book_lease(id, now);
                Ok(PooledObject::new(value, id))
            },
            None => {
                self.inner.book_failure(now);
                Err(PoolError::NoMatchFound)
            },
        };
        proof {
            before.lemma_searched_wf(now, pick);
            assert(old(self)@.searched_with(query, now, pick, self@, lease_view(outcome)));
        }
        outcome
    }

    /// Checks out, now, the first object on the shelf that `query` accepts:
    /// reads the pool's clock and searches at the time read.
    pub fn get_object<F: Fn(&T) -> bool>(&mut self, query: F) -> (leased: PoolResult<
        PooledObject<T>,
    >)
        requires
            old(self).wf(),
            forall|value: &T| call_requires(query, (value,)),
        ensures
            final(self).wf(),
            final(self).config() == old(self).config(),
            final(self).last_reading() >= old(self).last_reading(),
            exists|pick: Option<int>| #[trigger]
                old(self)@.searched_with(
                    query,
                    final(self).last_reading(),
                    pick,
                    final(self)@,
                    lease_view(leased),
                ),
    {
        let now = self.inner.clock.now();
        assert(self@ == old(self)@);
        self.get_object_at(query, now)
    }

    /// Searches at `now`, with a failure reported as `None`.
    pub fn try_get_object_at<F: Fn(&T) -> bool>(&mut self, query: F, now: u128) -> (leased: Option<
        PooledObject<T>,
    >)
        requires
            old(self).wf(),
            forall|value: &T| call_requires(query, (value,)),
        ensures
            final(self).wf(),
            final(self).config() == old(self).config(),
            final(self).last_reading() == old(self).last_reading(),
            exists|pick: Option<int>, failure: PoolError| #[trigger]
                old(self)@.searched_with(
                    query,
                    now,
                    pick,
                    final(self)@,
                    found_view(leased, failure),
                ),
    {
        match self.get_object_at(query, now) {
            Ok(lease) => {
                assert(found_view(Some(lease), PoolError::PoolEmpty) == lease_view(Ok(lease)));
                Some(lease)
            },
            Err(failure) => {
                assert(found_view::<T>(None, failure) == lease_view::<T>(Err(failure)));
                None
            },
        }
    }

    /// Searches now, by the pool's clock, with a failure reported as
    /// `None`.
    pub fn try_get_object<F: Fn(&T) -> bool>(&mut self, query: F) -> (leased: Option<
        PooledObject<T>,
    >)
        requires
            old(self).wf(),
            forall|value: &T| call_requires(query, (value,)),
        ensures
            final(self).wf(),
            final(self).config() == old(self).config(),
            final(self).last_reading() >= old(self).last_reading(),
            exists|pick: Option<int>, failure: PoolError| #[trigger]
                old(self)@.searched_with(
                    query,
                    final(self).last_reading(),
                    pick,
                    final(self)@,
                    found_view(leased, failure),
                ),
    {
        let now = self.inner.clock.now();
        assert(self@ == old(self)@);
        self.try_get_object_at(query, now)
    }

    /// Ends the lease on an object at `now`, as the pool underneath does.
    pub fn return_object_at(&mut self, lease: PooledObject<T>, now: u128)
        requires
            old(self).wf(),
            old(self)@.active.contains(lease@.1),
        ensures
            final(self).wf(),
            final(self).config() == old(self).config(),
            final(self).last_reading() == old(self).last_reading(),
            exists|valid: bool| #[trigger]
                return_settled(old(self).config(), old(self)@, lease@, valid, now, final(self)@),
            !old(self).config().validates() ==> final(self)@ == old(self)@.returned(
                lease@.0,
                lease@.1,
                true,
                now,
            ),
    {
        self.inner.return_object_at(lease, now)
    }

    /// Ends the lease on an object now: reads the pool's clock and ends the
    /// lease at the time read.
    pub fn return_object(&mut self, lease: PooledObject<T>)
        requires
            old(self).wf(),
            old(self)@.active.contains(lease@.1),
        ensures
            final(self).wf(),
            final(self).config() == old(self).config(),
            final(self).last_reading() >= old(self).last_reading(),
            exists|valid: bool| #[trigger]
                return_settled(
                    old(self).config(),
                    old(self)@,
                    lease@,
                    valid,
                    final(self).last_reading(),
                    final(self)@,
                ),
            !old(self).config().validates() ==> final(self)@ == old(self)@.returned(
                lease@.0,
                lease@.1,
                true,
                final(self).last_reading(),
            ),
    {
        self.inner.return_object(lease)
    }

    /// Ends a lease by letting the holder keep the object.
    pub fn extract(&mut self, lease: PooledObject<T>) -> (value: T)
        requires
            old(self).wf(),
            old(self)@.active.contains(lease@.1),
        ensures
            final(self).wf(),
            final(self).config() == old(self).config(),
            final(self).last_reading() == old(self).last_reading(),
            final(self)@ == old(self)@.extracted(lease@.1),
            value == lease@.0,
    {
        self.inner.extract(lease)
    }

    /// The number of objects on the shelf.
    pub fn available_count(&self) -> (count: usize)
        ensures
            count == self@.available.len(),
    {
        self.inner.available_count()
    }

    /// The number of objects on lease.
    pub fn active_count(&self) -> (count: usize)
        requires
            self.wf(),
        ensures
            count == self@.active.len(),
    {
        self.inner.active_count()
    }

    /// Whether `id` is on lease.
    pub fn is_active(&self, id: usize) -> (active: bool)
        ensures
            active == self@.active.contains(id),
    {
        self.inner.is_active(id)
    }

    /// A judgement of the pool from its gauges.
    pub fn get_health_status(&self) -> (status: HealthStatus)
        requires
            self.wf(),
        ensures
            status.is_healthy == !overloaded(self@.active.len(), self@.capacity),
            status.warnings.deep_view() == warning_texts(
                self@.available.len(),
                self@.active.len(),
                self@.capacity,
            ),
            status.warning_count == status.warnings@.len(),
            status.available_objects == self@.available.len(),
            status.active_objects == self@.active.len(),
            status.total_capacity == self@.capacity,
    {
        self.inner.get_health_status()
    }

    /// The reading of counters and gauges as pairs of name and value.
    pub fn export_metrics(&self) -> (pairs: Vec<(String, String)>)
        requires
            self.wf(),
        ensures
            pairs.deep_view() == self@.metrics.snapshot(
                self@.active.len() as usize,
                self@.available.len() as usize,
                self@.capacity as usize,
            ).exported(),
    {
        self.inner.export_metrics()
    }

    /// The reading in the text exposition format.
    pub fn export_metrics_prometheus(
        &self,
        pool_name: &str,
        tags: Option<&Vec<(String, String)>>,
    ) -> (text: String)
        requires
            self.wf(),
        ensures
            text@ == exposition(
                self@.metrics.snapshot(
                    self@.active.len() as usize,
                    self@.available.len() as usize,
                    self@.capacity as usize,
                ),
                label_text(pool_name@, tag_texts(tags)),
            ),
    {
        self.inner.export_metrics_prometheus(pool_name, tags)
    }
}

impl<T, V: Validator<T>> LeasePool<T> for QueryableObjectPool<T, V> {
    open spec fn state(&self) -> PoolState<T> {
        self@
    }

    open spec fn sound(&self) -> bool {
        self.wf()
    }

    open spec fn settings_kept(&self, before: &Self) -> bool {
        self.config() == before.config() && self.last_reading() == before.last_reading()
    }

    fn release(&mut self, lease: PooledObject<T>) -> (value: T) {
        self.extract(lease)
    }
}

/// A pool that grows: when an admitted checkout finds nothing on the shelf
/// to lend and the capacity is not used up, it makes a new object with the
/// pool's factory. The circuit breaker and the cap on leases hold for a
/// growing pool as for any other.
#[verifier::reject_recursive_types(T)]
#[verifier::reject_recursive_types(F)]
#[verifier::reject_recursive_types(V)]
pub struct DynamicObjectPool<T, F: Fn() -> T, V = NoValidation> {
    inner: ObjectPool<T, V>,
    factory: F,
}

impl<T, F: Fn() -> T, V: Validator<T>> View for DynamicObjectPool<T, F, V> {
    type V = PoolState<T>;

    closed spec fn view(&self) -> PoolState<T> {
        self.inner@
    }
}

impl<T, F: Fn() -> T, V: Validator<T>> DynamicObjectPool<T, F, V> {
    /// The pool's containers fit together, its state is well formed, and
    /// its factory can be called.
    pub closed spec fn wf(&self) -> bool {
        self.inner.wf() && call_requires(self.factory, ())
    }

    /// The configuration the pool was made with.
    pub closed spec fn config(&self) -> PoolConfiguration<T, V> {
        self.inner.config()
    }

    /// The latest reading of the pool's clock: the time of the last
    /// operation that took its time from the clock, and zero before the
    /// first.
    pub closed spec fn last_reading(&self) -> u128 {
        self.inner.last_reading()
    }

    /// The factory the pool was made with.
    pub closed spec fn factory(&self) -> F {
        self.factory
    }

    /// A well-formed pool has a well-formed state, which the lemma hands
    /// out.
    pub proof fn lemma_wf(&self) -> (state: PoolState<T>)
        requires
            self.wf(),
        ensures
            state == self@,
            state.wf(),
    {
        self@
    }

    /// Makes an empty pool at `now` that grows with `factory`.
    pub fn new_at(factory: F, config: PoolConfiguration<T, V>, now: u128) -> (pool: Self)
        requires
            capacity_fits(config.max_pool_size as nat),
            call_requires(factory, ()),
            config.sound(),
        ensures
            pool.wf(),
            pool@ == PoolState::opened(Seq::<T>::empty(), config, now),
            pool.config() == config,
            pool.last_reading() == 0,
            pool.factory() == factory,
    {
        let objects: Vec<T> = Vec::new();
        DynamicObjectPool { inner: ObjectPool::new_at(objects, config, now), factory }
    }

    /// Makes an empty pool that grows with `factory`.
    pub fn new(factory: F, config: PoolConfiguration<T, V>) -> (pool: Self)
        requires
            capacity_fits(config.max_pool_size as nat),
            call_requires(factory, ()),
            config.sound(),
        ensures
            pool.wf(),
            pool@ == PoolState::opened(Seq::<T>::empty(), config, 0),
            pool.config() == config,
            pool.last_reading() == 0,
            pool.factory() == factory,
    {
        Self::new_at(factory, config, 0)
    }

    /// Makes a pool at `now` that starts with `initial_objects` and grows
    /// with `factory`.
    pub fn with_initial_at(
        factory: F,
        initial_objects: Vec<T>,
        config: PoolConfiguration<T, V>,
        now: u128,
    ) -> (pool: Self)
        requires
            capacity_fits(
                capacity_for(initial_objects@.len(), config.max_pool_size as nat),
            ),
            call_requires(factory, ()),
            config.sound(),
        ensures
            pool.wf(),
            pool@ == PoolState::opened(initial_objects@, config, now),
            pool.config() == config,
            pool.last_reading() == 0,
            pool.factory() == factory,
    {
        DynamicObjectPool { inner: ObjectPool::new_at(initial_objects, config, now), factory }
    }

    /// Makes a pool that starts with `initial_objects` and grows with
    /// `factory`.
    pub fn with_initial(factory: F, initial_objects: Vec<T>, config: PoolConfiguration<T, V>) -> (pool:
        Self)
        requires
            capacity_fits(
                capacity_for(initial_objects@.len(), config.max_pool_size as nat),
            ),
            call_requires(factory, ()),
            config.sound(),
        ensures
            pool.wf(),
            pool@ == PoolState::opened(initial_objects@, config, 0),
            pool.config() == config,
            pool.last_reading() == 0,
            pool.factory() == factory,
    {
        Self::with_initial_at(factory, initial_objects, config, 0)
    }

    /// Checks out an object at `now`, making one if need be.
    ///
    /// The shelf is tried first, as in a fixed pool, with all that a failed
    /// checkout records. A checkout that the circuit breaker or the cap on
    /// leases refuses fails with that refusal. Where the checkout was
    /// admitted and found nothing to lend, the factory makes an object that
    /// is lent at once under a new identity, provided the leases do not fill
    /// the capacity and an identity is left; otherwise the checkout fails
    /// with `PoolFull`.
    pub fn get_object_at(&mut self, now: u128) -> (leased: PoolResult<PooledObject<T>>)
        requires
            old(self).wf(),
        ensures
            final(self).wf(),
            final(self).config() == old(self).config(),
            final(self).last_reading() == old(self).last_reading(),
            final(self).factory() == old(self).factory(),
            old(self)@.grew_with(old(self).factory(), now, final(self)@, lease_view(leased)),
    {
        let ghost before = self@;
        proof {
            before.lemma_checkout_wf(now);
        }
        let tried = self.inner.get_object_at(now);
        let ghost after_try = self@;
        match tried {
            Ok(lease) => Ok(lease),
            Err(PoolError::PoolEmpty) => {
                if self.inner.available_count() == 0 && self.inner.active_count()
                    < self.inner.capacity && self.inner.next_id < usize::MAX {
                    let value = (self.factory)();
                    let id = self.inner.next_id;
                    proof {
                        after_try.lemma_grown_wf(now);
                    }
                    self.inner.next_id = id + 1;
                    self.inner.eviction.track_object(id, now);
                    map_insert(&mut self.inner.active, id);
                    self.inner.metrics.total_retrieved = count_up(
                        self.inner.metrics.total_retrieved,
                    );
                    self.inner.health.increment_retrieved();
                    proof {
                        self.inner.ledger@ = Ledger {
                            admitted: self.inner.ledger@.admitted + 1,
                            ..self.inner.ledger@
                        };
                        assert(self@.available =~= after_try.grown(now).available);
                        assert(self@ == after_try.grown(now));
                    }
                    Ok(PooledObject::new(value, id))
                } else {
                    Err(PoolError::PoolFull)
                }
            },
            Err(error) => Err(error),
        }
    }

    /// Checks out an object now, making one if need be: reads the pool's
    /// clock and checks out at the time read.
    pub fn get_object(&mut self) -> (leased: PoolResult<PooledObject<T>>)
        requires
            old(self).wf(),
        ensures
            final(self).wf(),
            final(self).config() == old(self).config(),
            final(self).last_reading() >= old(self).last_reading(),
            final(self).factory() == old(self).factory(),
            old(self)@.grew_with(
                old(self).factory(),
                final(self).last_reading(),
                final(self)@,
                lease_view(leased),
            ),
    {
        let now = self.inner.clock.now();
        assert(self@ == old(self)@);
        assert(self.factory() == old(self).factory());
        self.get_object_at(now)
    }

    /// Checks out at `now`, with a failure reported as `None`.
    pub fn try_get_object_at(&mut self, now: u128) -> (leased: Option<PooledObject<T>>)
        requires
            old(self).wf(),
        ensures
            final(self).wf(),
            final(self).config() == old(self).config(),
            final(self).last_reading() == old(self).last_reading(),
            final(self).factory() == old(self).factory(),
            leased is Some <==> old(self)@.serves_at(now),
            exists|failure: PoolError| #[trigger]
                old(self)@.grew_with(
                    old(self).factory(),
                    now,
                    final(self)@,
                    found_view(leased, failure),
                ),
    {
        match self.get_object_at(now) {
            Ok(lease) => {
                assert(found_view(Some(lease), PoolError::PoolEmpty) == lease_view(Ok(lease)));
                Some(lease)
            },
            Err(failure) => {
                assert(found_view::<T>(None, failure) == lease_view::<T>(Err(failure)));
                None
            },
        }
    }

    /// Checks out now, by the pool's clock, with a failure reported as
    /// `None`.
    pub fn try_get_object(&mut self) -> (leased: Option<PooledObject<T>>)
        requires
            old(self).wf(),
        ensures
            final(self).wf(),
            final(self).config() == old(self).config(),
            final(self).last_reading() >= old(self).last_reading(),
            final(self).factory() == old(self).factory(),
            leased is Some <==> old(self)@.serves_at(final(self).last_reading()),
            exists|failure: PoolError| #[trigger]
                old(self)@.grew_with(
                    old(self).factory(),
                    final(self).last_reading(),
                    final(self)@,
                    found_view(leased, failure),
                ),
    {
        let now = self.inner.clock.now();
        assert(self@ == old(self)@);
        assert(self.factory() == old(self).factory());
        self.try_get_object_at(now)
    }

    /// Makes objects ahead of demand at `now`: `count` of them, or as many
    /// as the capacity and the identities leave room for if that is fewer.
    /// Each goes to the back of the shelf under a new identity. Leases,
    /// capacity and counters stay as they are.
    pub fn warmup_at(&mut self, count: usize, now: u128) -> (done: PoolResult<()>)
        requires
            old(self).wf(),
        ensures
            final(self).wf(),
            final(self).config() == old(self).config(),
            final(self).last_reading() == old(self).last_reading(),
            final(self).factory() == old(self).factory(),
            done is Ok,
            final(self)@.available.len() == old(self)@.available.len() + old(self)@.warmup_count(
                count as nat,
            ),
            final(self)@.active == old(self)@.active,
            final(self)@.capacity == old(self)@.capacity,
            old(self)@.warmed_with(old(self).factory(), count as nat, now, final(self)@),
    {
        let ghost before = self@;
        let free = self.inner.capacity - self.inner.available_count() - self.inner.active_count();
        let left = usize::MAX - self.inner.next_id;
        let room = if free <= left {
            free
        } else {
            left
        };
        let target = if count <= room {
            count
        } else {
            room
        };
        let ghost mut added: Seq<(T, usize)> = Seq::empty();
        let mut made: usize = 0;
        proof {
            assert(before.stocked(added, now).available =~= before.available);
            assert(before.stocked(added, now).eviction.entries =~= before.eviction.entries);
        }
        while made < target
            invariant
                before == old(self)@,
                before.wf(),
                target == before.warmup_count(count as nat),
                made <= target,
                added.len() == made,
                PoolState::numbered_from(added, before.next_id),
                forall|i: int| 0 <= i < added.len() ==> call_ensures(
                    self.factory,
                    (),
                    (#[trigger] added[i]).0,
                ),
                self.inner.shelved(),
                call_requires(self.factory, ()),
                self.config() == old(self).config(),
                self.last_reading() == old(self).last_reading(),
                self.factory() == old(self).factory(),
                self@ == before.stocked(added, now),
            decreases target - made,
        {
            let value = (self.factory)();
            let id = self.inner.next_id;
            let ghost longer = added.push((value, id));
            proof {
                before.lemma_stocked_wf(added, now);
                before.lemma_stocked_wf(longer, now);
                let current = before.stocked(added, now);
                if ids_of(current.available).contains(id) {
                    let i = choose|i: int|
                        0 <= i < current.available.len() && current.available[i].1 == id;
                    assert(current.available[i].1 < current.next_id);
                }
            }
            self.inner.next_id = id + 1;
            self.inner.eviction.track_object(id, now);
            proof {
                self.inner.ledger@ = Ledger {
                    admitted: self.inner.ledger@.admitted + 1,
                    ..self.inner.ledger@
                };
                assert(self@.available =~= before.stocked(added, now).available);
            }
            self.inner.put_back(value, id);
            proof {
                assert(self@.available =~= before.stocked(longer, now).available);
                assert(self@.eviction.entries =~= before.stocked(longer, now).eviction.entries);
                added = longer;
            }
            made = made + 1;
        }
        proof {
            before.lemma_stocked_wf(added, now);
            assert(before.added_entries(self@) =~= added);
            assert forall|i: int| before.available.len() <= i < self@.available.len() implies call_ensures(
                self.factory,
                (),
                (#[trigger] self@.available[i]).0,
            ) by {
                assert(self@.available[i] == added[i - before.available.len()]);
            }
        }
        Ok(())
    }

    /// Makes objects ahead of demand now: reads the pool's clock and warms
    /// up at the time read.
    pub fn warmup(&mut self, count: usize) -> (done: PoolResult<()>)
        requires
            old(self).wf(),
        ensures
            final(self).wf(),
            final(self).config() == old(self).config(),
            final(self).last_reading() >= old(self).last_reading(),
            final(self).factory() == old(self).factory(),
            done is Ok,
            final(self)@.available.len() == old(self)@.available.len() + old(self)@.warmup_count(
                count as nat,
            ),
            final(self)@.active == old(self)@.active,
            final(self)@.capacity == old(self)@.capacity,
            old(self)@.warmed_with(
                old(self).factory(),
                count as nat,
                final(self).last_reading(),
                final(self)@,
            ),
    {
        let now = self.inner.clock.now();
        assert(self@ == old(self)@);
        assert(self.factory() == old(self).factory());
        self.warmup_at(count, now)
    }

    /// Ends the lease on an object at `now`, as the pool underneath does.
    pub fn return_object_at(&mut self, lease: PooledObject<T>, now: u128)
        requires
            old(self).wf(),
            old(self)@.active.contains(lease@.1),
        ensures
            final(self).wf(),
            final(self).config() == old(self).config(),
            final(self).last_reading() == old(self).last_reading(),
            final(self).factory() == old(self).factory(),
            exists|valid: bool| #[trigger]
                return_settled(old(self).config(), old(self)@, lease@, valid, now, final(self)@),
            !old(self).config().validates() ==> final(self)@ == old(self)@.returned(
                lease@.0,
                lease@.1,
                true,
                now,
            ),
    {
        self.inner.return_object_at(lease, now)
    }

    /// Ends the lease on an object now: reads the pool's clock and ends the
    /// lease at the time read.
    pub fn return_object(&mut self, lease: PooledObject<T>)
        requires
            old(self).wf(),
            old(self)@.active.contains(lease@.1),
        ensures
            final(self).wf(),
            final(self).config() == old(self).config(),
            final(self).last_reading() >= old(self).last_reading(),
            final(self).factory() == old(self).factory(),
            exists|valid: bool| #[trigger]
                return_settled(
                    old(self).config(),
                    old(self)@,
                    lease@,
                    valid,
                    final(self).last_reading(),
                    final(self)@,
                ),
            !old(self).config().validates() ==> final(self)@ == old(self)@.returned(
                lease@.0,
                lease@.1,
                true,
                final(self).last_reading(),
            ),
    {
        self.inner.return_object(lease)
    }

    /// Ends a lease by letting the holder keep the object.
    pub fn extract(&mut self, lease: PooledObject<T>) -> (value: T)
        requires
            old(self).wf(),
            old(self)@.active.contains(lease@.1),
        ensures
            final(self).wf(),
            final(self).config() == old(self).config(),
            final(self).last_reading() == old(self).last_reading(),
            final(self).factory() == old(self).factory(),
            final(self)@ == old(self)@.extracted(lease@.1),
            value == lease@.0,
    {
        self.inner.extract(lease)
    }

    /// The number of objects on the shelf.
    pub fn available_count(&self) -> (count: usize)
        ensures
            count == self@.available.len(),
    {
        self.inner.available_count()
    }

    /// The number of objects on lease.
    pub fn active_count(&self) -> (count: usize)
        requires
            self.wf(),
        ensures
            count == self@.active.len(),
    {
        self.inner.active_count()
    }

    /// Whether `id` is on lease.
    pub fn is_active(&self, id: usize) -> (active: bool)
        ensures
            active == self@.active.contains(id),
    {
        self.inner.is_active(id)
    }

    /// A judgement of the pool from its gauges.
    pub fn get_health_status(&self) -> (status: HealthStatus)
        requires
            self.wf(),
        ensures
            status.is_healthy == !overloaded(self@.active.len(), self@.capacity),
            status.warnings.deep_view() == warning_texts(
                self@.available.len(),
                self@.active.len(),
                self@.capacity,
            ),
            status.warning_count == status.warnings@.len(),
            status.available_objects == self@.available.len(),
            status.active_objects == self@.active.len(),
            status.total_capacity == self@.capacity,
    {
        self.inner.get_health_status()
    }

    /// The reading of counters and gauges as pairs of name and value.
    pub fn export_metrics(&self) -> (pairs: Vec<(String, String)>)
        requires
            self.wf(),
        ensures
            pairs.deep_view() == self@.metrics.snapshot(
                self@.active.len() as usize,
                self@.available.len() as usize,
                self@.capacity as usize,
            ).exported(),
    {
        self.inner.export_metrics()
    }

    /// The reading in the text exposition format.
    pub fn export_metrics_prometheus(
        &self,
        pool_name: &str,
        tags: Option<&Vec<(String, String)>>,
    ) -> (text: String)
        requires
            self.wf(),
        ensures
            text@ == exposition(
                self@.metrics.snapshot(
                    self@.active.len() as usize,
                    self@.available.len() as usize,
                    self@.capacity as usize,
                ),
                label_text(pool_name@, tag_texts(tags)),
            ),
    {
        self.inner.export_metrics_prometheus(pool_name, tags)
    }
}

impl<T, F: Fn() -> T, V: Validator<T>> LeasePool<T> for DynamicObjectPool<T, F, V> {
    open spec fn state(&self) -> PoolState<T> {
        self@
    }

    open spec fn sound(&self) -> bool {
        self.wf()
    }

    open spec fn settings_kept(&self, before: &Self) -> bool {
        &&& self.config() == before.config()
        &&& self.last_reading() == before.last_reading()
        &&& self.factory() == before.factory()
    }

    fn release(&mut self, lease: PooledObject<T>) -> (value: T) {
        self.extract(lease)
    }
}

/// A shelf without an identity twice has none twice after an entry is taken
/// out.
proof fn lemma_removed_distinct<T>(entries: Seq<(T, usize)>, at: int)
    requires
        distinct_ids(entries),
        0 <= at < entries.len(),
    ensures
        distinct_ids(entries.remove(at)),
{
    let rest = entries.remove(at);
    assert forall|i: int, j: int| 0 <= i < j < rest.len() implies rest[i].1 != rest[j].1 by {
        let a = if i < at {
            i
        } else {
            i + 1
        };
        let b = if j < at {
            j
        } else {
            j + 1
        };
        assert(rest[i] == entries[a] && rest[j] == entries[b]);
    }
}

/// What is left of a shelf without an identity twice has none twice.
proof fn lemma_suffix_distinct<T>(entries: Seq<(T, usize)>, k: nat)
    requires
        distinct_ids(entries),
        k <= entries.len(),
    ensures
        distinct_ids(entries.skip(k as int)),
{
    let rest = entries.skip(k as int);
    assert forall|i: int, j: int| 0 <= i < j < rest.len() implies rest[i].1 != rest[j].1 by {
        assert(rest[i] == entries[i + k] && rest[j] == entries[j + k]);
    }
}

/// In a well-formed pool the identity at position `k` of the shelf is none
/// of those before it.
proof fn lemma_id_not_in_prefix<T>(s: PoolState<T>, k: nat)
    requires
        s.wf(),
        k < s.available.len(),
    ensures
        !ids_of(s.available.take(k as int)).contains(s.available[k as int].1),
{
    let prefix = s.available.take(k as int);
    if ids_of(prefix).contains(s.available[k as int].1) {
        let i = choose|i: int| 0 <= i < prefix.len() && prefix[i].1 == s.available[k as int].1;
        assert(prefix[i] == s.available[i]);
    }
}

/// The identities of one more entry at the front are those of the entries
/// before it and its own.
proof fn lemma_prefix_ids_grow<T>(entries: Seq<(T, usize)>, k: nat)
    requires
        k < entries.len(),
    ensures
        ids_of(entries.take(k as int + 1)) == ids_of(entries.take(k as int)).insert(entries[k as int].1),
{
    let longer = entries.take(k as int + 1);
    let shorter = entries.take(k as int);
    assert forall|id: usize| ids_of(longer).contains(id) implies ids_of(shorter).insert(
        entries[k as int].1,
    ).contains(id) by {
        let i = choose|i: int| 0 <= i < longer.len() && longer[i].1 == id;
        if i < k {
            assert(shorter[i] == longer[i]);
        }
    }
    assert forall|id: usize| ids_of(shorter).insert(entries[k as int].1).contains(
        id,
    ) implies ids_of(longer).contains(id) by {
        if ids_of(shorter).contains(id) {
            let i = choose|i: int| 0 <= i < shorter.len() && shorter[i].1 == id;
            assert(longer[i] == shorter[i]);
        } else {
            assert(longer[k as int].1 == id);
        }
    }
    assert(ids_of(longer) =~= ids_of(shorter).insert(entries[k as int].1));
}

} // verus!
