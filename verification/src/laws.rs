//! What holds of every pool, whatever is done with it.
//!
//! The laws are stated over [`PoolState`] and its transitions, which are
//! what the contracts of the pools speak of: a law proved here holds of
//! every run of a pool.
use crate::config::PoolConfiguration;
use crate::errors::PoolError;
use crate::pool_state::{
    capacity_for, fresh_entries, gate_allows, lemma_fresh_entries, lemma_stale_run, stale_run,
    PoolState,
};
use crate::text::scaled_ratio;
use vstd::prelude::*;

verus! {

/// One thing that can be done with a pool.
pub enum PoolStep<T> {
    /// A checkout at a time.
    Checkout { now: u128 },
    /// A search at a time that settles on the given position among the
    /// entries that have not expired, or on none.
    Search { now: u128, pick: Option<int> },
    /// The end of the lease on an identity, with the value that comes back
    /// and the verdict of validation.
    Return { value: T, id: usize, valid: bool, now: u128 },
    /// The holder of the lease on an identity keeps the value.
    Extract { id: usize },
}

impl<T> PoolState<T> {
    /// Whether none of the counters reads less than it did in `earlier`.
    pub open spec fn counted_on_from(self, earlier: PoolState<T>) -> bool {
        &&& self.metrics.total_retrieved >= earlier.metrics.total_retrieved
        &&& self.metrics.total_returned >= earlier.metrics.total_returned
        &&& self.metrics.pool_empty_events >= earlier.metrics.pool_empty_events
        &&& self.metrics.validation_failures >= earlier.metrics.validation_failures
    }

    /// Whether `step` can be taken: a lease that ends is a lease that
    /// exists, and a search settles on an entry that is there.
    pub open spec fn permits(self, step: PoolStep<T>) -> bool {
        match step {
            PoolStep::Checkout { now } => true,
            PoolStep::Search { now, pick } => pick matches Some(at) ==> 0 <= at < fresh_entries(
                self.available,
                self.eviction,
                now,
            ).len(),
            PoolStep::Return { value, id, valid, now } => self.active.contains(id),
            PoolStep::Extract { id } => self.active.contains(id),
        }
    }

    /// The pool after `step`.
    pub open spec fn after(self, step: PoolStep<T>) -> PoolState<T> {
        match step {
            PoolStep::Checkout { now } => self.checkout(now).0,
            PoolStep::Search { now, pick } => self.searched(now, pick).0,
            PoolStep::Return { value, id, valid, now } => self.returned(value, id, valid, now),
            PoolStep::Extract { id } => self.extracted(id),
        }
    }

    /// Whether `steps` can be taken one after another.
    pub open spec fn permits_all(self, steps: Seq<PoolStep<T>>) -> bool
        decreases steps.len(),
    {
        steps.len() > 0 ==> self.permits_all(steps.drop_last()) && self.after_all(
            steps.drop_last(),
        ).permits(steps.last())
    }

    /// The pool after `steps`, taken one after another.
    pub open spec fn after_all(self, steps: Seq<PoolStep<T>>) -> PoolState<T>
        decreases steps.len(),
    {
        if steps.len() == 0 {
            self
        } else {
            self.after_all(steps.drop_last()).after(steps.last())
        }
    }

    /// The number of checkouts among `times`, made one after another, that
    /// hand out an object.
    pub open spec fn served(self, times: Seq<u128>) -> nat
        decreases times.len(),
    {
        if times.len() == 0 {
            0
        } else {
            let earlier = self.served(times.drop_last());
            if self.after_checkouts(times.drop_last()).checkout(times.last()).1 is Ok {
                earlier + 1
            } else {
                earlier
            }
        }
    }

    /// The pool after checkouts at `times`, made one after another.
    pub open spec fn after_checkouts(self, times: Seq<u128>) -> PoolState<T>
        decreases times.len(),
    {
        if times.len() == 0 {
            self
        } else {
            self.after_checkouts(times.drop_last()).checkout(times.last()).0
        }
    }

    /// The pool after one round in which validation rejects: a checkout at
    /// `out`, and, if it handed out an object, the end of that lease at
    /// `back` with the object failing validation.
    pub open spec fn after_rejected_round(self, out: u128, back: u128) -> PoolState<T> {
        let (lent, outcome) = self.checkout(out);
        match outcome {
            Ok(entry) => lent.returned(entry.0, entry.1, false, back),
            Err(_) => lent,
        }
    }

    /// The pool after rounds in which validation rejects, at the pairs of
    /// times given.
    pub open spec fn after_rejected_rounds(self, times: Seq<(u128, u128)>) -> PoolState<T>
        decreases times.len(),
    {
        if times.len() == 0 {
            self
        } else {
            self.after_rejected_rounds(times.drop_last()).after_rejected_round(
                times.last().0,
                times.last().1,
            )
        }
    }

    /// A step that can be taken keeps the pool well formed. It changes
    /// neither the capacity nor the number of entries ever admitted, it
    /// turns no counter back, and under the policy without expiry it
    /// discards nothing as expired.
    pub proof fn lemma_step(self, step: PoolStep<T>)
        requires
            self.wf(),
            self.permits(step),
        ensures
            self.after(step).wf(),
            self.after(step).capacity == self.capacity,
            self.after(step).ledger.admitted == self.ledger.admitted,
            self.after(step).eviction.policy == self.eviction.policy,
            self.after(step).counted_on_from(self),
            self.eviction.policy is Never ==> self.after(step).ledger.expired
                == self.ledger.expired,
    {
        match step {
            PoolStep::Checkout { now } => {
                self.lemma_checkout_wf(now);
                lemma_stale_run(self.available, self.eviction, now);
                if self.eviction.policy is Never && self.available.len() > 0 {
                    assert(!self.eviction.expired(self.available[0].1, now));
                }
            },
            PoolStep::Search { now, pick } => {
                self.lemma_searched_wf(now, pick);
                if self.eviction.policy is Never {
                    lemma_nothing_stale(self, now);
                }
            },
            PoolStep::Return { value, id, valid, now } => {
                self.lemma_returned_wf(value, id, valid, now);
            },
            PoolStep::Extract { id } => {
                self.lemma_extracted_wf(id);
            },
        }
    }

    /// Steps that can be taken one after another keep the pool well formed
    /// and its capacity and the number of entries ever admitted as they
    /// were, turn no counter back, and under the policy without expiry
    /// discard nothing as expired.
    pub proof fn lemma_steps(self, steps: Seq<PoolStep<T>>)
        requires
            self.wf(),
            self.permits_all(steps),
        ensures
            self.after_all(steps).wf(),
            self.after_all(steps).capacity == self.capacity,
            self.after_all(steps).ledger.admitted == self.ledger.admitted,
            self.after_all(steps).eviction.policy == self.eviction.policy,
            self.after_all(steps).counted_on_from(self),
            self.eviction.policy is Never ==> self.after_all(steps).ledger.expired
                == self.ledger.expired,
        decreases steps.len(),
    {
        if steps.len() > 0 {
            self.lemma_steps(steps.drop_last());
            self.after_all(steps.drop_last()).lemma_step(steps.last());
        }
    }
}

/// Under the policy without expiry every entry on the shelf is fresh.
proof fn lemma_nothing_stale<T>(s: PoolState<T>, now: u128)
    requires
        s.eviction.policy is Never,
    ensures
        fresh_entries(s.available, s.eviction, now) == s.available,
        s.drained(now).ledger.expired == s.ledger.expired,
{
    lemma_all_fresh(s.available, s.eviction, now);
}

/// Where no entry has expired, the fresh entries are all the entries.
pub proof fn lemma_all_fresh<T>(
    entries: Seq<(T, usize)>,
    eviction: crate::eviction::EvictionState,
    now: u128,
)
    requires
        forall|i: int| 0 <= i < entries.len() ==> !eviction.expired((#[trigger] entries[i]).1, now),
    ensures
        fresh_entries(entries, eviction, now) == entries,
    decreases entries.len(),
{
    if entries.len() > 0 {
        let shorter = entries.drop_last();
        assert forall|i: int| 0 <= i < shorter.len() implies !eviction.expired(
            (#[trigger] shorter[i]).1,
            now,
        ) by {
            assert(shorter[i] == entries[i]);
        }
        lemma_all_fresh(shorter, eviction, now);
        assert(!eviction.expired(entries[entries.len() - 1].1, now));
        assert(shorter.push(entries.last()) =~= entries);
    } else {
        assert(fresh_entries(entries, eviction, now) =~= entries);
    }
}

/// Time matters to a pool only through its policies: without expiry and
/// without a circuit breaker, a checkout and the end of a lease come to the
/// same at any time.
pub proof fn lemma_timeless<T>(
    s: PoolState<T>,
    value: T,
    id: usize,
    valid: bool,
    now: u128,
    later: u128,
)
    requires
        s.wf(),
        s.eviction.policy is Never,
        s.breaker is None,
    ensures
        s.checkout(now) == s.checkout(later),
        s.returned(value, id, valid, now) == s.returned(value, id, valid, later),
{
    lemma_stale_run(s.available, s.eviction, now);
    lemma_stale_run(s.available, s.eviction, later);
    if s.available.len() > 0 {
        assert(!s.eviction.expired(s.available[0].1, now));
        assert(!s.eviction.expired(s.available[0].1, later));
    }
}

/// Conservation of entries. Whatever is done with a pool, every entry it
/// ever admitted is on the shelf, on lease, or was discarded as expired,
/// rejected by validation, or kept by its holder.
pub proof fn lemma_entries_conserved<T, V>(
    objects: Seq<T>,
    config: PoolConfiguration<T, V>,
    start: u128,
    steps: Seq<PoolStep<T>>,
)
    requires
        capacity_for(objects.len(), config.max_pool_size as nat) <= usize::MAX,
        PoolState::opened(objects, config, start).permits_all(steps),
    ensures
        ({
            let end = PoolState::opened(objects, config, start).after_all(steps);
            end.available.len() + end.active.len() + end.ledger.rejected + end.ledger.extracted
                + end.ledger.expired == objects.len()
        }),
{
    PoolState::lemma_opened_wf(objects, config, start);
    PoolState::opened(objects, config, start).lemma_steps(steps);
}

/// Conservation in a pool that is full from the start and lets nothing
/// expire: shelf, leases, rejections and extractions add up to the capacity,
/// whatever is done with the pool.
pub proof fn lemma_full_pool_conserved<T, V>(
    objects: Seq<T>,
    config: PoolConfiguration<T, V>,
    start: u128,
    steps: Seq<PoolStep<T>>,
)
    requires
        config.max_pool_size <= objects.len() <= usize::MAX,
        config.policy() is Never,
        PoolState::opened(objects, config, start).permits_all(steps),
    ensures
        ({
            let end = PoolState::opened(objects, config, start).after_all(steps);
            end.available.len() + end.active.len() + end.ledger.rejected + end.ledger.extracted
                == end.capacity
        }),
{
    PoolState::lemma_opened_wf(objects, config, start);
    PoolState::opened(objects, config, start).lemma_steps(steps);
}

/// A checkout that fails leaves the leases as they were and fails with
/// `CircuitBreakerOpen`, `MaxActiveObjectsReached` or `PoolEmpty`, the first
/// of these only in a pool with a circuit breaker. A checkout that succeeds
/// adds one lease.
pub proof fn lemma_checkout_outcomes<T>(s: PoolState<T>, now: u128)
    requires
        s.wf(),
    ensures
        s.checkout(now).1 matches Err(error) ==> {
            &&& s.checkout(now).0.active == s.active
            &&& error == PoolError::CircuitBreakerOpen || error
                == PoolError::MaxActiveObjectsReached || error == PoolError::PoolEmpty
            &&& s.breaker is None ==> error != PoolError::CircuitBreakerOpen
        },
        s.checkout(now).1 is Ok ==> s.checkout(now).0.active.len() == s.active.len() + 1,
{
    s.lemma_checkout_wf(now);
    if s.refusal(now) is None {
        let screened = s.screened(now);
        let k = stale_run(screened.available, screened.eviction, now);
        lemma_stale_run(screened.available, screened.eviction, now);
        screened.lemma_swept_wf(k);
        if k < screened.available.len() {
            screened.swept(k).lemma_lent_wf(0, now);
        }
    }
}

/// Of any number of checkouts made one after another without a lease
/// ending in between, no more succeed than there are checkouts, and no more
/// than the capacity leaves room for.
pub proof fn lemma_checkouts_bounded<T>(s: PoolState<T>, times: Seq<u128>)
    requires
        s.wf(),
    ensures
        s.after_checkouts(times).wf(),
        s.after_checkouts(times).capacity == s.capacity,
        s.after_checkouts(times).active.len() == s.active.len() + s.served(times),
        s.served(times) <= times.len(),
        s.served(times) <= s.capacity,
    decreases times.len(),
{
    if times.len() > 0 {
        lemma_checkouts_bounded(s, times.drop_last());
        let earlier = s.after_checkouts(times.drop_last());
        lemma_checkout_outcomes(earlier, times.last());
        earlier.lemma_checkout_wf(times.last());
        earlier.lemma_step(PoolStep::Checkout { now: times.last() });
    }
}

/// A growing pool grows only past an empty shelf. A checkout that the
/// circuit breaker or the cap on leases refuses fails with that refusal and
/// makes nothing; an admitted checkout is served or fails with `PoolFull`. A
/// failed checkout leaves the leases as they were, a served one adds one
/// lease, and the leases never exceed the cap that admitted them.
pub proof fn lemma_growing_checkout_outcomes<T>(s: PoolState<T>, now: u128, made: T)
    requires
        s.wf(),
    ensures
        s.growing_checkout(now, made).0.wf(),
        s.refusal(now) matches Some(error) ==> s.growing_checkout(now, made) == (
            s.screened(now),
            Err::<(T, usize), PoolError>(error),
        ),
        s.refusal(now) is None ==> (s.growing_checkout(now, made).1 matches Err(error) ==> error
            == PoolError::PoolFull),
        s.growing_checkout(now, made).1 is Err ==> s.growing_checkout(now, made).0.active
            == s.active,
        s.growing_checkout(now, made).1 is Ok ==> s.growing_checkout(now, made).0.active.len()
            == s.active.len() + 1 && !s.at_lease_cap(),
{
    s.lemma_growing_checkout_wf(now, made);
    lemma_checkout_outcomes(s, now);
    s.lemma_checkout_wf(now);
    if s.grows_at(now) {
        s.checkout(now).0.lemma_grown_wf(now);
    }
}

/// No checkout and no search hands out an entry that has expired. In
/// particular an entry older than the age limit is never handed out.
pub proof fn lemma_expired_never_lent<T>(s: PoolState<T>, now: u128, pick: Option<int>)
    requires
        s.wf(),
        s.permits(PoolStep::Search { now, pick }),
    ensures
        s.checkout(now).1 matches Ok(entry) ==> !s.eviction.expired(entry.1, now),
        s.searched(now, pick).1 matches Ok(entry) ==> !s.eviction.expired(entry.1, now),
        s.checkout(now).1 matches Ok(entry) ==> !s.eviction.past_age_limit(entry.1, now),
        s.searched(now, pick).1 matches Ok(entry) ==> !s.eviction.past_age_limit(entry.1, now),
{
    lemma_stale_run(s.available, s.eviction, now);
    lemma_fresh_entries(s.available, s.eviction, now);
}

/// A pool without capacity lends nothing. A checkout that is admitted
/// fails with `PoolEmpty`, in a growing pool with `PoolFull`; and the
/// utilization is zero.
pub proof fn lemma_no_capacity<T>(s: PoolState<T>, now: u128, made: T)
    requires
        s.wf(),
        s.capacity == 0,
    ensures
        s.checkout(now).1 is Err,
        s.growing_checkout(now, made).1 is Err,
        s.refusal(now) is None ==> s.checkout(now).1 == Err::<(T, usize), PoolError>(
            PoolError::PoolEmpty,
        ),
        s.refusal(now) is None ==> s.growing_checkout(now, made).1 == Err::<
            (T, usize),
            PoolError,
        >(PoolError::PoolFull),
        scaled_ratio(s.active.len(), s.capacity, 100) == 0,
{
    s.lemma_checkout_wf(now);
    lemma_checkout_outcomes(s, now);
}

/// With the cap on leases at zero every checkout and every search that
/// the circuit breaker admits fails with `MaxActiveObjectsReached`, before
/// it looks at the shelf, and a growing pool makes nothing.
pub proof fn lemma_no_leases_allowed<T>(s: PoolState<T>, now: u128, pick: Option<int>, made: T)
    requires
        s.wf(),
        s.max_active == Some(0usize),
        gate_allows(s.breaker, now),
    ensures
        s.checkout(now).1 == Err::<(T, usize), PoolError>(PoolError::MaxActiveObjectsReached),
        s.searched(now, pick).1 == Err::<(T, usize), PoolError>(
            PoolError::MaxActiveObjectsReached,
        ),
        s.growing_checkout(now, made).1 == Err::<(T, usize), PoolError>(
            PoolError::MaxActiveObjectsReached,
        ),
        s.checkout(now).0 == s.screened(now),
        s.searched(now, pick).0 == s.screened(now),
        s.growing_checkout(now, made).0 == s.screened(now),
        s.screened(now).available == s.available,
        s.screened(now).active == s.active,
        s.screened(now).next_id == s.next_id,
{
}

/// A round in which validation rejects takes an entry off the shelf for
/// good: in a pool that admits every checkout, the round leaves the shelf
/// shorter unless it was empty, and leaves the leases as they were.
pub proof fn lemma_rejected_round<T>(s: PoolState<T>, out: u128, back: u128)
    requires
        s.wf(),
        s.breaker is None,
        s.max_active is None,
    ensures
        s.after_rejected_round(out, back).wf(),
        s.after_rejected_round(out, back).breaker is None,
        s.after_rejected_round(out, back).max_active is None,
        s.after_rejected_round(out, back).active == s.active,
        s.available.len() > 0 ==> s.after_rejected_round(out, back).available.len()
            < s.available.len(),
        s.available.len() == 0 ==> s.after_rejected_round(out, back).available.len() == 0,
{
    s.lemma_checkout_wf(out);
    lemma_stale_run(s.available, s.eviction, out);
    let (lent, outcome) = s.checkout(out);
    if let Ok(entry) = outcome {
        let k = stale_run(s.available, s.eviction, out);
        assert(lent.active.contains(entry.1));
        lent.lemma_returned_wf(entry.0, entry.1, false, back);
        assert(!s.active.contains(s.available[k as int].1));
        assert(lent.returned(entry.0, entry.1, false, back).active =~= s.active);
    }
}

/// Where validation rejects every object, as many rounds as the shelf has
/// entries leave the shelf empty.
pub proof fn lemma_rejected_rounds_empty_shelf<T>(s: PoolState<T>, times: Seq<(u128, u128)>)
    requires
        s.wf(),
        s.breaker is None,
        s.max_active is None,
    ensures
        s.after_rejected_rounds(times).wf(),
        s.after_rejected_rounds(times).breaker is None,
        s.after_rejected_rounds(times).max_active is None,
        s.after_rejected_rounds(times).available.len() + times.len() <= s.available.len()
            || s.after_rejected_rounds(times).available.len() == 0,
        times.len() >= s.available.len() ==> s.after_rejected_rounds(times).available.len() == 0,
    decreases times.len(),
{
    if times.len() > 0 {
        lemma_rejected_rounds_empty_shelf(s, times.drop_last());
        lemma_rejected_round(
            s.after_rejected_rounds(times.drop_last()),
            times.last().0,
            times.last().1,
        );
    }
}

} // verus!
