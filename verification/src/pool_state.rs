//! The pool as a mathematical object: what it holds, and what each
//! operation makes of it.
//!
//! Every operation of the pools in this crate is specified as a function
//! from one [`PoolState`] to the next. The functions are total and pure, so
//! they can be composed, unfolded and reasoned about without the pool
//! itself; the laws at the end of this module are stated over them.
use crate::circuit_breaker::BreakerState;
use crate::config::PoolConfiguration;
use crate::counter::counted;
use crate::errors::PoolError;
use crate::eviction::{EvictionPolicy, EvictionState, ObjectMetadata};
use crate::health::HealthTracker;
use crate::metrics::MetricsTracker;
use crate::time::duration_nanos;
use vstd::prelude::*;

verus! {

/// An account of every entry a pool ever admitted and of the ways entries
/// have left it for good.
pub struct Ledger {
    /// Entries admitted: those the pool started with and those made later.
    pub admitted: nat,
    /// Entries discarded because they had expired.
    pub expired: nat,
    /// Entries discarded because they failed validation on return.
    pub rejected: nat,
    /// Entries whose value the holder kept.
    pub extracted: nat,
}

/// What a pool is at one moment.
pub struct PoolState<T> {
    /// The entries on the shelf, each a value with its identity, in the
    /// order in which they will be lent.
    pub available: Seq<(T, usize)>,
    /// The identities on lease.
    pub active: Set<usize>,
    /// The most entries the pool has room for, shelf and leases together.
    pub capacity: nat,
    /// The identity the next new entry will get.
    pub next_id: nat,
    /// The cap on simultaneous leases, if any.
    pub max_active: Option<usize>,
    /// The stamps of the entries and the expiry policy.
    pub eviction: EvictionState,
    /// The circuit breaker, if the pool has one.
    pub breaker: Option<BreakerState>,
    /// The counters.
    pub metrics: MetricsTracker,
    /// The health counters.
    pub health: HealthTracker,
    /// The account of entries.
    pub ledger: Ledger,
}

/// A counter of the pool, one event later.
pub open spec fn tick(n: usize) -> usize {
    counted(n as nat) as usize
}

/// The breaker's verdict on a request at `now`; a pool without a breaker
/// admits every request.
pub open spec fn gate_allows(breaker: Option<BreakerState>, now: u128) -> bool {
    match breaker {
        Some(b) => b.allows(now),
        None => true,
    }
}

/// The breaker after an admission check at `now`.
pub open spec fn gate_checked(breaker: Option<BreakerState>, now: u128) -> Option<BreakerState> {
    match breaker {
        Some(b) => Some(b.after_admission(now)),
        None => None,
    }
}

/// The breaker after a recorded success.
pub open spec fn gate_succeeded(breaker: Option<BreakerState>) -> Option<BreakerState> {
    match breaker {
        Some(b) => Some(b.after_success()),
        None => None,
    }
}

/// The breaker after a failure recorded at `now`.
pub open spec fn gate_failed(breaker: Option<BreakerState>, now: u128) -> Option<BreakerState> {
    match breaker {
        Some(b) => Some(b.after_failure(now)),
        None => None,
    }
}

/// The capacity of a pool that starts with `count` entries under a
/// configuration with room for `max_pool_size`: the larger of the two.
pub open spec fn capacity_for(count: nat, max_pool_size: nat) -> nat {
    if count >= max_pool_size {
        count
    } else {
        max_pool_size
    }
}

/// The stamps of a pool's first `count` entries, all made at `now`. Under
/// the policy without expiry there are none.
pub open spec fn stamped(policy: EvictionPolicy, count: nat, now: u128) -> EvictionState {
    EvictionState {
        policy,
        entries: Map::new(
            |id: usize| !(policy is Never) && id < count,
            |id: usize| ObjectMetadata { created_at: now, last_used: now },
        ),
    }
}

/// Whether no identity occurs twice in `entries`.
pub open spec fn distinct_ids<T>(entries: Seq<(T, usize)>) -> bool {
    forall|i: int, j: int| 0 <= i < j < entries.len() ==> entries[i].1 != entries[j].1
}

/// The identities of `entries`.
pub open spec fn ids_of<T>(entries: Seq<(T, usize)>) -> Set<usize> {
    Set::new(|id: usize| exists|i: int| 0 <= i < entries.len() && entries[i].1 == id)
}

/// The number of entries at the front of `entries` that have expired at
/// `now`: the entries a checkout discards before it reaches one it can lend.
pub open spec fn stale_run<T>(entries: Seq<(T, usize)>, eviction: EvictionState, now: u128) -> nat
    decreases entries.len(),
{
    if entries.len() > 0 && eviction.expired(entries.first().1, now) {
        1 + stale_run(entries.drop_first(), eviction, now)
    } else {
        0
    }
}

/// The entries of `entries` that have not expired at `now`, in their order.
pub open spec fn fresh_entries<T>(
    entries: Seq<(T, usize)>,
    eviction: EvictionState,
    now: u128,
) -> Seq<(T, usize)>
    decreases entries.len(),
{
    if entries.len() == 0 {
        Seq::empty()
    } else {
        let front = fresh_entries(entries.drop_last(), eviction, now);
        if eviction.expired(entries.last().1, now) {
            front
        } else {
            front.push(entries.last())
        }
    }
}

/// The identities of the entries of `entries` that have expired at `now`.
pub open spec fn stale_ids<T>(entries: Seq<(T, usize)>, eviction: EvictionState, now: u128) -> Set<
    usize,
> {
    Set::new(|id: usize| ids_of(entries).contains(id) && eviction.expired(id, now))
}

/// Whether `pick` is what a search of `entries` from the front with the
/// predicate `query` comes to: the position of the first entry that the
/// predicate accepted, every entry before it turned down; or nothing, every
/// entry turned down.
pub open spec fn first_match<T, F: Fn(&T) -> bool>(
    query: F,
    entries: Seq<(T, usize)>,
    pick: Option<int>,
) -> bool {
    match pick {
        Some(at) => {
            &&& 0 <= at < entries.len()
            &&& call_ensures(query, (&entries[at].0,), true)
            &&& forall|i: int| 0 <= i < at ==> call_ensures(query, (&(#[trigger] entries[i]).0,), false)
        },
        None => forall|i: int|
            0 <= i < entries.len() ==> call_ensures(query, (&(#[trigger] entries[i]).0,), false),
    }
}

impl<T> PoolState<T> {
    /// The pool that is made from `objects` under `config` at `now`. The
    /// objects go on the shelf in the order given and are numbered from
    /// zero; new identities start at the capacity.
    pub open spec fn opened<V>(
        objects: Seq<T>,
        config: PoolConfiguration<T, V>,
        now: u128,
    ) -> PoolState<T> {
        let capacity = capacity_for(objects.len(), config.max_pool_size as nat);
        PoolState {
            available: Seq::new(objects.len(), |i: int| (objects[i], i as usize)),
            active: Set::empty(),
            capacity,
            next_id: capacity,
            max_active: config.max_active_objects,
            eviction: stamped(config.policy(), objects.len(), now),
            breaker: if config.enable_circuit_breaker {
                Some(
                    BreakerState::fresh(
                        config.circuit_breaker_threshold as nat,
                        duration_nanos(config.circuit_breaker_timeout),
                    ),
                )
            } else {
                None
            },
            metrics: MetricsTracker::fresh(),
            health: HealthTracker::fresh(),
            ledger: Ledger { admitted: objects.len(), expired: 0, rejected: 0, extracted: 0 },
        }
    }

    /// Every entry that was ever admitted is on the shelf, on lease, or
    /// accounted for as expired, rejected or extracted.
    pub open spec fn balanced(self) -> bool {
        self.available.len() + self.active.len() + self.ledger.expired + self.ledger.rejected
            + self.ledger.extracted == self.ledger.admitted
    }

    /// As long as the counter of leases has not reached its top, every
    /// lease ever handed out was taken back, is still out, or ended with the
    /// object rejected or kept by its holder.
    pub open spec fn leases_accounted(self) -> bool {
        self.metrics.total_retrieved < usize::MAX ==> self.metrics.total_retrieved
            == self.metrics.total_returned + self.active.len() + self.ledger.rejected
            + self.ledger.extracted
    }

    /// As long as the counter of validation failures has not reached its
    /// top, it is the number of entries rejected.
    pub open spec fn rejections_counted(self) -> bool {
        self.metrics.validation_failures < usize::MAX ==> self.metrics.validation_failures
            == self.ledger.rejected
    }

    /// What holds of every pool: no identity occurs twice, shelf and leases
    /// together stay within the capacity, identities are older than the next
    /// one, the account of entries balances, and the counters agree with
    /// it.
    pub open spec fn wf(self) -> bool {
        &&& distinct_ids(self.available)
        &&& forall|i: int|
            0 <= i < self.available.len() ==> !self.active.contains(
                (#[trigger] self.available[i]).1,
            )
        &&& forall|i: int|
            0 <= i < self.available.len() ==> (#[trigger] self.available[i]).1 < self.next_id
        &&& forall|id: usize| self.active.contains(id) ==> id < self.next_id
        &&& self.active.finite()
        &&& self.available.len() + self.active.len() <= self.capacity
        &&& self.capacity <= self.next_id <= usize::MAX
        &&& self.eviction.wf()
        &&& self.balanced()
        &&& self.leases_accounted()
        &&& self.rejections_counted()
    }

    /// Whether the cap on simultaneous leases is reached.
    pub open spec fn at_lease_cap(self) -> bool {
        self.max_active matches Some(cap) && self.active.len() >= cap
    }

    /// The error that stops a checkout at `now` before it looks at the
    /// shelf, if there is one: the breaker's refusal first, then the cap on
    /// leases.
    pub open spec fn refusal(self, now: u128) -> Option<PoolError> {
        if !gate_allows(self.breaker, now) {
            Some(PoolError::CircuitBreakerOpen)
        } else if self.at_lease_cap() {
            Some(PoolError::MaxActiveObjectsReached)
        } else {
            None
        }
    }

    /// The pool after the admission check of a checkout at `now`. Only the
    /// breaker can change, and only when it admits the request.
    pub open spec fn screened(self, now: u128) -> PoolState<T> {
        if gate_allows(self.breaker, now) {
            PoolState { breaker: gate_checked(self.breaker, now), ..self }
        } else {
            self
        }
    }

    /// The pool after the first `k` entries on the shelf were discarded as
    /// expired.
    pub open spec fn swept(self, k: nat) -> PoolState<T> {
        PoolState {
            available: self.available.skip(k as int),
            eviction: EvictionState {
                entries: self.eviction.entries.remove_keys(ids_of(self.available.take(k as int))),
                ..self.eviction
            },
            ledger: Ledger { expired: self.ledger.expired + k, ..self.ledger },
            ..self
        }
    }

    /// The pool after a checkout found nothing to lend at `now`.
    pub open spec fn missed(self, now: u128) -> PoolState<T> {
        PoolState {
            metrics: MetricsTracker {
                pool_empty_events: tick(self.metrics.pool_empty_events),
                ..self.metrics
            },
            health: HealthTracker {
                pool_empty_count: tick(self.health.pool_empty_count),
                ..self.health
            },
            breaker: gate_failed(self.breaker, now),
            ..self
        }
    }

    /// The pool after the entry at position `i` of the shelf went on lease
    /// at `now`.
    pub open spec fn lent(self, i: int, now: u128) -> PoolState<T> {
        PoolState {
            available: self.available.remove(i),
            active: self.active.insert(self.available[i].1),
            eviction: self.eviction.touch(self.available[i].1, now),
            metrics: MetricsTracker {
                total_retrieved: tick(self.metrics.total_retrieved),
                ..self.metrics
            },
            health: HealthTracker {
                total_retrieved: tick(self.health.total_retrieved),
                ..self.health
            },
            breaker: gate_succeeded(self.breaker),
            ..self
        }
    }

    /// What an admitted checkout at `now` makes of the pool and what it
    /// hands out. The expired entries at the front of the shelf are
    /// discarded; the first entry behind them goes on lease; if there is
    /// none, the checkout fails with `PoolEmpty`.
    pub open spec fn taken(self, now: u128) -> (PoolState<T>, Result<(T, usize), PoolError>) {
        let k = stale_run(self.available, self.eviction, now);
        if k >= self.available.len() {
            (self.swept(k).missed(now), Err(PoolError::PoolEmpty))
        } else {
            (self.swept(k).lent(0, now), Ok(self.available[k as int]))
        }
    }

    /// What a checkout at `now` makes of the pool and what it hands out.
    pub open spec fn checkout(self, now: u128) -> (PoolState<T>, Result<(T, usize), PoolError>) {
        match self.refusal(now) {
            Some(error) => (self.screened(now), Err(error)),
            None => self.screened(now).taken(now),
        }
    }

    /// The pool after the lease on `id` ended at `now` with `value` coming
    /// back. A value that passed validation goes to the back of the shelf;
    /// one that failed is discarded for good.
    pub open spec fn returned(self, value: T, id: usize, valid: bool, now: u128) -> PoolState<T> {
        if valid {
            PoolState {
                available: self.available.push((value, id)),
                active: self.active.remove(id),
                eviction: self.eviction.touch(id, now),
                metrics: MetricsTracker {
                    total_returned: tick(self.metrics.total_returned),
                    ..self.metrics
                },
                health: HealthTracker {
                    total_returned: tick(self.health.total_returned),
                    ..self.health
                },
                ..self
            }
        } else {
            PoolState {
                active: self.active.remove(id),
                eviction: self.eviction.remove(id),
                metrics: MetricsTracker {
                    validation_failures: tick(self.metrics.validation_failures),
                    ..self.metrics
                },
                ledger: Ledger { rejected: self.ledger.rejected + 1, ..self.ledger },
                ..self
            }
        }
    }

    /// The pool after every expired entry was taken off the shelf, wherever
    /// on the shelf it stood.
    pub open spec fn drained(self, now: u128) -> PoolState<T> {
        let fresh = fresh_entries(self.available, self.eviction, now);
        PoolState {
            available: fresh,
            eviction: EvictionState {
                entries: self.eviction.entries.remove_keys(
                    stale_ids(self.available, self.eviction, now),
                ),
                ..self.eviction
            },
            ledger: Ledger {
                expired: self.ledger.expired + (self.available.len() - fresh.len()) as nat,
                ..self.ledger
            },
            ..self
        }
    }

    /// The pool after a search found no entry to lend at `now`.
    pub open spec fn unmatched(self, now: u128) -> PoolState<T> {
        PoolState { breaker: gate_failed(self.breaker, now), ..self }
    }

    /// What an admitted search at `now` makes of the pool and what it hands
    /// out, where `pick` is the position, among the entries that have not
    /// expired, of the entry the search settled on. All expired entries are
    /// discarded; the entry picked goes on lease and the others keep their
    /// order; with nothing picked the search fails with `NoMatchFound`.
    pub open spec fn picked(self, now: u128, pick: Option<int>) -> (
        PoolState<T>,
        Result<(T, usize), PoolError>,
    ) {
        let drained = self.drained(now);
        match pick {
            Some(at) => (drained.lent(at, now), Ok(drained.available[at])),
            None => (drained.unmatched(now), Err(PoolError::NoMatchFound)),
        }
    }

    /// What a search at `now` makes of the pool and what it hands out.
    pub open spec fn searched(self, now: u128, pick: Option<int>) -> (
        PoolState<T>,
        Result<(T, usize), PoolError>,
    ) {
        match self.refusal(now) {
            Some(error) => (self.screened(now), Err(error)),
            None => self.screened(now).picked(now, pick),
        }
    }

    /// Whether a search at `now` with the predicate `query` can have made
    /// `after` of the pool and handed out `outcome`, having settled on
    /// `pick`: an admitted search settles on the first entry, among those
    /// that have not expired, that the predicate accepts.
    pub open spec fn searched_with<F: Fn(&T) -> bool>(
        self,
        query: F,
        now: u128,
        pick: Option<int>,
        after: PoolState<T>,
        outcome: Result<(T, usize), PoolError>,
    ) -> bool {
        &&& self.refusal(now) is None ==> first_match(
            query,
            fresh_entries(self.available, self.eviction, now),
            pick,
        )
        &&& self.searched(now, pick) == (after, outcome)
    }

    /// Whether a growing pool may make another entry to lend: the shelf is
    /// empty, the leases do not fill the capacity, and an identity is left.
    pub open spec fn can_grow(self) -> bool {
        &&& self.available.len() == 0
        &&& self.active.len() < self.capacity
        &&& self.next_id < usize::MAX
    }

    /// The pool after an entry was made at `now` and lent at once. The entry
    /// gets the next identity.
    pub open spec fn grown(self, now: u128) -> PoolState<T> {
        PoolState {
            active: self.active.insert(self.next_id as usize),
            next_id: self.next_id + 1,
            eviction: self.eviction.track(self.next_id as usize, now),
            metrics: MetricsTracker {
                total_retrieved: tick(self.metrics.total_retrieved),
                ..self.metrics
            },
            health: HealthTracker {
                total_retrieved: tick(self.health.total_retrieved),
                ..self.health
            },
            ledger: Ledger { admitted: self.ledger.admitted + 1, ..self.ledger },
            ..self
        }
    }

    /// Whether a checkout at `now` in a growing pool comes to making an
    /// entry: the checkout was admitted, found nothing on the shelf to lend,
    /// and the pool can grow. A checkout that is refused at the door, by the
    /// circuit breaker or by the cap on leases, never does.
    pub open spec fn grows_at(self, now: u128) -> bool {
        &&& self.checkout(now).1 == Err::<(T, usize), PoolError>(PoolError::PoolEmpty)
        &&& self.checkout(now).0.can_grow()
    }

    /// Whether a checkout at `now` in a growing pool hands out an object:
    /// one from the shelf, or one made.
    pub open spec fn serves_at(self, now: u128) -> bool {
        self.checkout(now).1 is Ok || self.grows_at(now)
    }

    /// What a checkout at `now` makes of a growing pool and what it hands
    /// out where the pool does not grow: what the checkout makes of any
    /// pool, except that an empty shelf is reported as `PoolFull`. Every
    /// other error is handed on as it is.
    pub open spec fn checkout_without_growth(self, now: u128) -> (
        PoolState<T>,
        Result<(T, usize), PoolError>,
    ) {
        let (tried, outcome) = self.checkout(now);
        match outcome {
            Ok(entry) => (tried, Ok(entry)),
            Err(error) => (
                tried,
                Err(
                    if error is PoolEmpty {
                        PoolError::PoolFull
                    } else {
                        error
                    },
                ),
            ),
        }
    }

    /// What a checkout at `now` makes of a growing pool and what it hands
    /// out, where `made` is the value the factory yields if it is asked. The
    /// shelf is tried first, as in any pool, with all that a failed checkout
    /// records. Only where that checkout found the shelf empty and the pool
    /// can grow is a new entry made and lent.
    pub open spec fn growing_checkout(self, now: u128, made: T) -> (
        PoolState<T>,
        Result<(T, usize), PoolError>,
    ) {
        if self.grows_at(now) {
            let tried = self.checkout(now).0;
            (tried.grown(now), Ok((made, tried.next_id as usize)))
        } else {
            self.checkout_without_growth(now)
        }
    }

    /// Whether a checkout at `now` has made `after` of a growing pool and
    /// handed out `outcome`. Where the pool grows, the object handed out is
    /// one that `factory` yielded, under the next identity.
    pub open spec fn grew_with<F: Fn() -> T>(
        self,
        factory: F,
        now: u128,
        after: PoolState<T>,
        outcome: Result<(T, usize), PoolError>,
    ) -> bool {
        if self.grows_at(now) {
            &&& outcome matches Ok(entry) && call_ensures(factory, (), entry.0) && entry.1
                == self.checkout(now).0.next_id
            &&& after == self.checkout(now).0.grown(now)
        } else {
            (after, outcome) == self.checkout_without_growth(now)
        }
    }

    /// The number of entries that can be put on the shelf ahead of demand:
    /// what the capacity leaves free, as far as identities are left.
    pub open spec fn room(self) -> nat {
        let free = (self.capacity - self.available.len() - self.active.len()) as nat;
        let left = (usize::MAX - self.next_id) as nat;
        if free <= left {
            free
        } else {
            left
        }
    }

    /// Whether the entries of `added` carry the identities from `first`
    /// on, one after another.
    pub open spec fn numbered_from(added: Seq<(T, usize)>, first: nat) -> bool {
        forall|i: int| 0 <= i < added.len() ==> (#[trigger] added[i]).1 == first + i
    }

    /// The pool after the entries of `added` were made at `now` and put on
    /// the shelf behind those that were there.
    pub open spec fn stocked(self, added: Seq<(T, usize)>, now: u128) -> PoolState<T> {
        PoolState {
            available: self.available + added,
            next_id: self.next_id + added.len(),
            eviction: EvictionState {
                entries: if self.eviction.policy is Never {
                    self.eviction.entries
                } else {
                    Map::new(
                        |id: usize|
                            self.eviction.entries.contains_key(id) || self.next_id <= id
                                < self.next_id + added.len(),
                        |id: usize|
                            if self.next_id <= id < self.next_id + added.len() {
                                ObjectMetadata { created_at: now, last_used: now }
                            } else {
                                self.eviction.entries[id]
                            },
                    )
                },
                ..self.eviction
            },
            ledger: Ledger { admitted: self.ledger.admitted + added.len(), ..self.ledger },
            ..self
        }
    }

    /// The number of entries a warm-up for `count` puts on the shelf:
    /// `count`, or what room there is if that is less.
    pub open spec fn warmup_count(self, count: nat) -> nat {
        if count <= self.room() {
            count
        } else {
            self.room()
        }
    }

    /// The entries that stand on the shelf of `after` behind those of this
    /// pool.
    pub open spec fn added_entries(self, after: PoolState<T>) -> Seq<(T, usize)> {
        after.available.skip(self.available.len() as int)
    }

    /// Whether a warm-up for `count` entries at `now` has made `after` of
    /// the pool: as many entries as were asked for and fit were put on the
    /// shelf behind those that were there, each with a value that `factory`
    /// yielded and each under the next identity.
    pub open spec fn warmed_with<F: Fn() -> T>(
        self,
        factory: F,
        count: nat,
        now: u128,
        after: PoolState<T>,
    ) -> bool {
        &&& after.available.len() == self.available.len() + self.warmup_count(count)
        &&& Self::numbered_from(self.added_entries(after), self.next_id)
        &&& forall|i: int|
            self.available.len() <= i < after.available.len() ==> call_ensures(
                factory,
                (),
                (#[trigger] after.available[i]).0,
            )
        &&& after == self.stocked(self.added_entries(after), now)
    }

    /// The pool after the holder of the lease on `id` kept the value.
    pub open spec fn extracted(self, id: usize) -> PoolState<T> {
        PoolState {
            active: self.active.remove(id),
            eviction: self.eviction.remove(id),
            ledger: Ledger { extracted: self.ledger.extracted + 1, ..self.ledger },
            ..self
        }
    }
}

/// There are finitely many identities below any bound.
pub proof fn lemma_ids_below_finite(bound: nat)
    ensures
        Set::new(|id: usize| id < bound).finite(),
    decreases bound,
{
    let below = Set::new(|id: usize| id < bound);
    if bound == 0 {
        assert(below =~= Set::<usize>::empty());
    } else {
        lemma_ids_below_finite((bound - 1) as nat);
        let fewer = Set::new(|id: usize| id < bound - 1);
        if bound - 1 <= usize::MAX {
            assert(below =~= fewer.insert((bound - 1) as usize));
        } else {
            assert(below =~= fewer);
        }
    }
}

/// The entries that have not expired are entries of the shelf, none of them
/// has expired, there are no more of them than the shelf holds, and they
/// have no identity twice if the shelf has none twice.
pub proof fn lemma_fresh_entries<T>(entries: Seq<(T, usize)>, eviction: EvictionState, now: u128)
    ensures
        fresh_entries(entries, eviction, now).len() <= entries.len(),
        forall|i: int|
            0 <= i < fresh_entries(entries, eviction, now).len() ==> {
                &&& entries.contains(#[trigger] fresh_entries(entries, eviction, now)[i])
                &&& !eviction.expired(fresh_entries(entries, eviction, now)[i].1, now)
            },
        distinct_ids(entries) ==> distinct_ids(fresh_entries(entries, eviction, now)),
    decreases entries.len(),
{
    if entries.len() > 0 {
        let shorter = entries.drop_last();
        let front = fresh_entries(shorter, eviction, now);
        let fresh = fresh_entries(entries, eviction, now);
        lemma_fresh_entries(shorter, eviction, now);
        assert forall|i: int| 0 <= i < fresh.len() implies entries.contains(#[trigger] fresh[i])
            && !eviction.expired(fresh[i].1, now) by {
            if i < front.len() {
                assert(shorter.contains(front[i]));
                let at = choose|at: int| 0 <= at < shorter.len() && shorter[at] == front[i];
                assert(entries[at] == fresh[i]);
            } else {
                assert(entries[entries.len() - 1] == fresh[i]);
            }
        }
        if distinct_ids(entries) {
            assert forall|i: int, j: int| 0 <= i < j < shorter.len() implies shorter[i].1
                != shorter[j].1 by {
                assert(shorter[i] == entries[i] && shorter[j] == entries[j]);
            }
            assert forall|i: int, j: int| 0 <= i < j < fresh.len() implies fresh[i].1
                != fresh[j].1 by {
                if j >= front.len() {
                    assert(shorter.contains(front[i]));
                    let at = choose|at: int| 0 <= at < shorter.len() && shorter[at] == front[i];
                    assert(entries[at].1 != entries[entries.len() - 1].1);
                }
            }
        }
    }
}

/// The stale run is a prefix of the shelf: it is no longer than the shelf,
/// every entry in it has expired, and the entry behind it, if there is one,
/// has not.
pub proof fn lemma_stale_run<T>(entries: Seq<(T, usize)>, eviction: EvictionState, now: u128)
    ensures
        stale_run(entries, eviction, now) <= entries.len(),
        forall|i: int|
            0 <= i < stale_run(entries, eviction, now) ==> eviction.expired(
                (#[trigger] entries[i]).1,
                now,
            ),
        stale_run(entries, eviction, now) < entries.len() ==> !eviction.expired(
            entries[stale_run(entries, eviction, now) as int].1,
            now,
        ),
    decreases entries.len(),
{
    if entries.len() > 0 && eviction.expired(entries.first().1, now) {
        let rest = entries.drop_first();
        lemma_stale_run(rest, eviction, now);
        let k = stale_run(rest, eviction, now);
        assert forall|i: int| 0 <= i < k + 1 implies eviction.expired(
            (#[trigger] entries[i]).1,
            now,
        ) by {
            if i > 0 {
                assert(entries[i] == rest[i - 1]);
            }
        }
        if k + 1 < entries.len() {
            assert(entries[k as int + 1] == rest[k as int]);
        }
    }
}

/// A prefix of expired entries that ends at the shelf's end or before an
/// entry that has not expired is the stale run.
pub proof fn lemma_stale_run_found<T>(
    entries: Seq<(T, usize)>,
    eviction: EvictionState,
    now: u128,
    k: nat,
)
    requires
        k <= entries.len(),
        forall|i: int| 0 <= i < k ==> eviction.expired((#[trigger] entries[i]).1, now),
        k < entries.len() ==> !eviction.expired(entries[k as int].1, now),
    ensures
        stale_run(entries, eviction, now) == k,
    decreases k,
{
    if k > 0 {
        let rest = entries.drop_first();
        assert forall|i: int| 0 <= i < k - 1 implies eviction.expired(
            (#[trigger] rest[i]).1,
            now,
        ) by {
            assert(rest[i] == entries[i + 1]);
        }
        if k < entries.len() {
            assert(rest[k - 1] == entries[k as int]);
        }
        assert(eviction.expired(entries[0].1, now));
        lemma_stale_run_found(rest, eviction, now, (k - 1) as nat);
    }
}

impl<T> PoolState<T> {
    /// A pool is well formed when it is made.
    pub proof fn lemma_opened_wf<V>(objects: Seq<T>, config: PoolConfiguration<T, V>, now: u128)
        requires
            capacity_for(objects.len(), config.max_pool_size as nat) <= usize::MAX,
        ensures
            Self::opened(objects, config, now).wf(),
    {
        let s = Self::opened(objects, config, now);
        let count = objects.len();
        assert(s.eviction.entries.dom().finite()) by {
            let below = Set::new(|id: usize| id < count);
            assert(below.finite()) by {
                lemma_ids_below_finite(count);
            }
            assert(s.eviction.entries.dom().subset_of(below));
            vstd::set_lib::lemma_len_subset(s.eviction.entries.dom(), below);
        }
        if config.policy() is Never {
            assert(s.eviction.entries =~= Map::<usize, ObjectMetadata>::empty());
        }
    }

    /// Discarding entries from the front of the shelf keeps the pool well
    /// formed.
    pub proof fn lemma_swept_wf(self, k: nat)
        requires
            self.wf(),
            k <= self.available.len(),
        ensures
            self.swept(k).wf(),
    {
        let after = self.swept(k);
        assert(after.eviction.entries.dom() =~= self.eviction.entries.dom().difference(
            ids_of(self.available.take(k as int)),
        ));
        if self.eviction.policy is Never {
            assert(after.eviction.entries =~= Map::<usize, ObjectMetadata>::empty());
        }
        assert forall|i: int| 0 <= i < after.available.len() implies after.available[i]
            == self.available[i + k] by {}
    }

    /// A checkout that found nothing to lend keeps the pool well formed.
    pub proof fn lemma_missed_wf(self, now: u128)
        requires
            self.wf(),
        ensures
            self.missed(now).wf(),
    {
    }

    /// Lending an entry keeps the pool well formed.
    pub proof fn lemma_lent_wf(self, i: int, now: u128)
        requires
            self.wf(),
            0 <= i < self.available.len(),
        ensures
            self.lent(i, now).wf(),
            self.lent(i, now).active.len() == self.active.len() + 1,
    {
        let after = self.lent(i, now);
        let id = self.available[i].1;
        crate::eviction::lemma_tracker_stays_wf(self.eviction, id, now);
        assert forall|a: int| 0 <= a < after.available.len() implies after.available[a] == (if a
            < i {
            self.available[a]
        } else {
            self.available[a + 1]
        }) by {}
        assert forall|a: int| 0 <= a < after.available.len() implies !after.active.contains(
            (#[trigger] after.available[a]).1,
        ) by {
            if a < i {
                assert(self.available[a].1 != self.available[i].1);
            } else {
                assert(self.available[i].1 != self.available[a + 1].1);
            }
        }
    }

    /// A checkout keeps the pool well formed.
    pub proof fn lemma_checkout_wf(self, now: u128)
        requires
            self.wf(),
        ensures
            self.checkout(now).0.wf(),
    {
        let screened = self.screened(now);
        assert(screened.wf());
        if self.refusal(now) is None {
            let k = stale_run(screened.available, screened.eviction, now);
            lemma_stale_run(screened.available, screened.eviction, now);
            screened.lemma_swept_wf(k);
            if k >= screened.available.len() {
                screened.swept(k).lemma_missed_wf(now);
            } else {
                screened.swept(k).lemma_lent_wf(0, now);
            }
        }
    }

    /// Taking every expired entry off the shelf keeps the pool well formed.
    pub proof fn lemma_drained_wf(self, now: u128)
        requires
            self.wf(),
        ensures
            self.drained(now).wf(),
            self.drained(now).available.len() <= self.available.len(),
    {
        let after = self.drained(now);
        lemma_fresh_entries(self.available, self.eviction, now);
        assert forall|i: int| 0 <= i < after.available.len() implies !after.active.contains(
            (#[trigger] after.available[i]).1,
        ) && after.available[i].1 < after.next_id by {
            assert(self.available.contains(after.available[i]));
            let at = choose|at: int|
                0 <= at < self.available.len() && self.available[at] == after.available[i];
            assert(!self.active.contains(self.available[at].1));
        }
        assert(after.eviction.entries.dom() =~= self.eviction.entries.dom().difference(
            stale_ids(self.available, self.eviction, now),
        ));
        if self.eviction.policy is Never {
            assert(after.eviction.entries =~= Map::<usize, ObjectMetadata>::empty());
        }
    }

    /// A search keeps the pool well formed, whatever it settles on.
    pub proof fn lemma_searched_wf(self, now: u128, pick: Option<int>)
        requires
            self.wf(),
            pick matches Some(at) ==> 0 <= at < fresh_entries(
                self.available,
                self.eviction,
                now,
            ).len(),
        ensures
            self.searched(now, pick).0.wf(),
    {
        let screened = self.screened(now);
        assert(screened.wf());
        if self.refusal(now) is None {
            screened.lemma_drained_wf(now);
            if let Some(at) = pick {
                screened.drained(now).lemma_lent_wf(at, now);
            }
        }
    }

    /// Making an entry and lending it at once keeps a pool that can grow
    /// well formed.
    pub proof fn lemma_grown_wf(self, now: u128)
        requires
            self.wf(),
            self.can_grow(),
        ensures
            self.grown(now).wf(),
            self.grown(now).active.len() == self.active.len() + 1,
    {
        let id = self.next_id as usize;
        crate::eviction::lemma_tracker_stays_wf(self.eviction, id, now);
        assert(!self.active.contains(id));
    }

    /// A checkout keeps a growing pool well formed.
    pub proof fn lemma_growing_checkout_wf(self, now: u128, made: T)
        requires
            self.wf(),
        ensures
            self.growing_checkout(now, made).0.wf(),
    {
        self.lemma_checkout_wf(now);
        if self.grows_at(now) {
            self.checkout(now).0.lemma_grown_wf(now);
        }
    }

    /// What a growing pool's checkout is stated to have done is what
    /// `growing_checkout` says, with the value handed out as the value made.
    pub proof fn lemma_grew_with<F: Fn() -> T>(
        self,
        factory: F,
        now: u128,
        after: PoolState<T>,
        outcome: Result<(T, usize), PoolError>,
        made: T,
    )
        requires
            self.wf(),
            self.grew_with(factory, now, after, outcome),
            outcome matches Ok(entry) ==> made == entry.0,
        ensures
            self.growing_checkout(now, made) == (after, outcome),
            after.wf(),
    {
        self.lemma_growing_checkout_wf(now, made);
    }

    /// Putting new entries on the shelf keeps the pool well formed as long
    /// as there is room for them.
    pub proof fn lemma_stocked_wf(self, added: Seq<(T, usize)>, now: u128)
        requires
            self.wf(),
            added.len() <= self.room(),
            Self::numbered_from(added, self.next_id),
        ensures
            self.stocked(added, now).wf(),
    {
        let after = self.stocked(added, now);
        let count = added.len();
        assert forall|i: int| 0 <= i < after.available.len() implies (#[trigger] after.available[i]).1
            == (if i < self.available.len() {
            self.available[i].1
        } else {
            (self.next_id + i - self.available.len()) as usize
        }) by {
            if i >= self.available.len() {
                assert(after.available[i] == added[i - self.available.len()]);
            }
        }
        assert forall|i: int, j: int| 0 <= i < j < after.available.len() implies after.available[i].1
            != after.available[j].1 by {
            if i < self.available.len() {
                assert(self.available[i].1 < self.next_id);
            }
        }
        assert forall|i: int| 0 <= i < after.available.len() implies !after.active.contains(
            (#[trigger] after.available[i]).1,
        ) by {
            if i < self.available.len() {
                assert(!self.active.contains(self.available[i].1));
            }
        }
        assert forall|i: int| 0 <= i < after.available.len() implies (#[trigger] after.available[i]).1
            < after.next_id by {
            if i < self.available.len() {
                assert(self.available[i].1 < self.next_id);
            }
        }
        if !(self.eviction.policy is Never) {
            let below = Set::new(|id: usize| id < self.next_id + count);
            lemma_ids_below_finite(self.next_id + count);
            let both = self.eviction.entries.dom().union(below);
            assert(after.eviction.entries.dom().subset_of(both));
            vstd::set_lib::lemma_len_subset(after.eviction.entries.dom(), both);
        }
    }

    /// Taking a leased entry back, or discarding it, keeps the pool well
    /// formed.
    pub proof fn lemma_returned_wf(self, value: T, id: usize, valid: bool, now: u128)
        requires
            self.wf(),
            self.active.contains(id),
        ensures
            self.returned(value, id, valid, now).wf(),
            self.returned(value, id, valid, now).active.len() == self.active.len() - 1,
    {
        let after = self.returned(value, id, valid, now);
        crate::eviction::lemma_tracker_stays_wf(self.eviction, id, now);
        if valid {
            assert forall|i: int, j: int| 0 <= i < j < after.available.len() implies after.available[i].1
                != after.available[j].1 by {
                if j == self.available.len() {
                    assert(!self.active.contains(self.available[i].1));
                }
            }
        }
    }

    /// Letting the holder keep a leased value keeps the pool well formed.
    pub proof fn lemma_extracted_wf(self, id: usize)
        requires
            self.wf(),
            self.active.contains(id),
        ensures
            self.extracted(id).wf(),
            self.extracted(id).active.len() == self.active.len() - 1,
    {
        crate::eviction::lemma_tracker_stays_wf(self.eviction, id, 0);
    }
}

} // verus!
