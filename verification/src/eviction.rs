//! Expiry of pooled objects by age or by idleness.
//!
//! The tracker keeps two stamps for every object it is told about, the time
//! it was created and the time it was last used, and answers whether an
//! object has outlived the policy. It never acts on its own: the pool asks
//! when it takes an entry off the shelf.
use crate::time::duration_nanos;
use std::collections::HashMap;
use std::marker::PhantomData;
use std::time::Duration;
use vstd::prelude::*;
use vstd::std_specs::iter::IteratorSpec;

verus! {

/// When an object is too old to be lent again.
#[derive(Debug, Clone)]
pub enum EvictionPolicy {
    /// Objects never expire.
    Never,
    /// An object expires once it is older than the given span.
    TimeToLive(Duration),
    /// An object expires once it has been unused for longer than the given
    /// span.
    IdleTimeout(Duration),
    /// An object expires on whichever of the two comes first.
    Combined { ttl: Duration, idle_timeout: Duration },
}

impl EvictionPolicy {
    /// The age limit in nanoseconds, if the policy has one.
    pub open spec fn age_limit(self) -> Option<nat> {
        match self {
            EvictionPolicy::TimeToLive(ttl) => Some(duration_nanos(ttl)),
            EvictionPolicy::Combined { ttl, idle_timeout } => Some(duration_nanos(ttl)),
            _ => None,
        }
    }

    /// The idleness limit in nanoseconds, if the policy has one.
    pub open spec fn idle_limit(self) -> Option<nat> {
        match self {
            EvictionPolicy::IdleTimeout(idle) => Some(duration_nanos(idle)),
            EvictionPolicy::Combined { ttl, idle_timeout } => Some(duration_nanos(idle_timeout)),
            _ => None,
        }
    }

    /// Whether this is the policy under which nothing expires.
    pub fn is_never(&self) -> (never: bool)
        ensures
            never == (*self is Never),
    {
        match self {
            EvictionPolicy::Never => true,
            _ => false,
        }
    }
}

impl Default for EvictionPolicy {
    fn default() -> (policy: Self)
        ensures
            policy is Never,
    {
        EvictionPolicy::Never
    }
}

/// Whether more than `limit` nanoseconds lie between `since` and `now`.
fn elapsed_exceeds(since: u128, now: u128, limit: u128) -> (exceeded: bool)
    ensures
        exceeded == (now - since > limit),
{
    now > since && now - since > limit
}

/// The two stamps kept for an object, in nanoseconds.
#[derive(Debug, Clone, Copy)]
pub struct ObjectMetadata {
    pub created_at: u128,
    pub last_used: u128,
}

impl ObjectMetadata {
    /// Whether an object with these stamps has expired under `policy` at
    /// `now`: it is older than the age limit, or idle for longer than the
    /// idleness limit.
    pub open spec fn expired_under(self, policy: EvictionPolicy, now: u128) -> bool {
        ||| policy.age_limit() matches Some(limit) && now - self.created_at > limit
        ||| policy.idle_limit() matches Some(limit) && now - self.last_used > limit
    }

    /// The stamps after a use at `now`.
    pub open spec fn touched(self, now: u128) -> ObjectMetadata {
        ObjectMetadata { last_used: now, ..self }
    }

    /// Stamps for an object created at `now`.
    pub fn new(now: u128) -> (meta: Self)
        ensures
            meta.created_at == now,
            meta.last_used == now,
    {
        ObjectMetadata { created_at: now, last_used: now }
    }

    /// Records a use at `now`.
    pub fn touch(&mut self, now: u128)
        ensures
            *final(self) == old(self).touched(now),
    {
        self.last_used = now;
    }

    /// Whether the object has expired under `policy` at `now`.
    pub fn is_expired(&self, policy: &EvictionPolicy, now: u128) -> (expired: bool)
        ensures
            expired == self.expired_under(*policy, now),
    {
        match policy {
            EvictionPolicy::Never => false,
            EvictionPolicy::TimeToLive(ttl) => elapsed_exceeds(
                self.created_at,
                now,
                ttl.as_nanos(),
            ),
            EvictionPolicy::IdleTimeout(idle) => elapsed_exceeds(
                self.last_used,
                now,
                idle.as_nanos(),
            ),
            EvictionPolicy::Combined { ttl, idle_timeout } => elapsed_exceeds(
                self.created_at,
                now,
                ttl.as_nanos(),
            ) || elapsed_exceeds(self.last_used, now, idle_timeout.as_nanos()),
        }
    }
}

/// What a tracker knows: its policy and the stamps of the objects it tracks.
pub struct EvictionState {
    pub policy: EvictionPolicy,
    pub entries: Map<usize, ObjectMetadata>,
}

impl EvictionState {
    /// A tracker with no objects.
    pub open spec fn fresh(policy: EvictionPolicy) -> EvictionState {
        EvictionState { policy, entries: Map::empty() }
    }

    /// Finitely many objects are tracked, and none at all under the policy
    /// without expiry.
    pub open spec fn wf(self) -> bool {
        &&& self.entries.dom().finite()
        &&& self.policy is Never ==> self.entries == Map::<usize, ObjectMetadata>::empty()
    }

    /// The tracker after `id` was registered at `now`.
    pub open spec fn track(self, id: usize, now: u128) -> EvictionState {
        if self.policy is Never {
            self
        } else {
            EvictionState {
                entries: self.entries.insert(
                    id,
                    ObjectMetadata { created_at: now, last_used: now },
                ),
                ..self
            }
        }
    }

    /// The tracker after a use of `id` at `now`. An object that is not
    /// tracked stays untracked.
    pub open spec fn touch(self, id: usize, now: u128) -> EvictionState {
        if !(self.policy is Never) && self.entries.contains_key(id) {
            EvictionState { entries: self.entries.insert(id, self.entries[id].touched(now)), ..self }
        } else {
            self
        }
    }

    /// The tracker after it forgot `id`.
    pub open spec fn remove(self, id: usize) -> EvictionState {
        EvictionState { entries: self.entries.remove(id), ..self }
    }

    /// Whether `id` is tracked under a policy with an age limit and was
    /// created more than that limit before `now`.
    pub open spec fn past_age_limit(self, id: usize, now: u128) -> bool {
        &&& self.entries.contains_key(id)
        &&& self.policy.age_limit() matches Some(limit) && self.entries[id].created_at + limit
            < now
    }

    /// Whether `id` has expired at `now`. An object that is not tracked has
    /// not.
    pub open spec fn expired(self, id: usize, now: u128) -> bool {
        &&& !(self.policy is Never)
        &&& self.entries.contains_key(id)
        &&& self.entries[id].expired_under(self.policy, now)
    }
}

/// Whether `id` is among the first `n` of `ids`.
spec fn among(ids: Seq<&usize>, n: int, id: usize) -> bool {
    exists|k: int| 0 <= k < n && *ids[k] == id
}

/// Per-object stamps and the policy they are judged by.
#[verifier::reject_recursive_types(T)]
pub struct EvictionTracker<T> {
    metadata: HashMap<usize, ObjectMetadata>,
    policy: EvictionPolicy,
    _phantom: PhantomData<T>,
}

impl<T> View for EvictionTracker<T> {
    type V = EvictionState;

    closed spec fn view(&self) -> EvictionState {
        EvictionState { policy: self.policy, entries: self.metadata@ }
    }
}

impl<T> EvictionTracker<T> {
    /// A tracker with no objects.
    pub fn new(policy: EvictionPolicy) -> (tracker: Self)
        ensures
            tracker@ == EvictionState::fresh(policy),
            tracker@.wf(),
    {
        EvictionTracker { metadata: HashMap::new(), policy, _phantom: PhantomData }
    }

    /// Registers `id` as created and last used at `now`. Under the policy
    /// without expiry nothing is stored.
    pub fn track_object(&mut self, id: usize, now: u128)
        ensures
            final(self)@ == old(self)@.track(id, now),
    {
        if !self.policy.is_never() {
            self.metadata.insert(id, ObjectMetadata::new(now));
        }
    }

    /// Records a use of `id` at `now`, if `id` is tracked.
    pub fn touch_object(&mut self, id: usize, now: u128)
        ensures
            final(self)@ == old(self)@.touch(id, now),
    {
        if !self.policy.is_never() {
            let found = match self.metadata.get(&id) {
                Some(meta) => Some(*meta),
                None => None,
            };
            if let Some(mut meta) = found {
                meta.touch(now);
                self.metadata.insert(id, meta);
            }
        }
    }

    /// Whether `id` has expired at `now`.
    pub fn is_expired(&self, id: usize, now: u128) -> (expired: bool)
        ensures
            expired == self@.expired(id, now),
    {
        if self.policy.is_never() {
            return false;
        }
        match self.metadata.get(&id) {
            Some(meta) => meta.is_expired(&self.policy, now),
            None => false,
        }
    }

    /// Forgets `id`.
    pub fn remove_object(&mut self, id: usize)
        ensures
            final(self)@ == old(self)@.remove(id),
    {
        self.metadata.remove(&id);
    }

    /// The tracked objects that have expired at `now`, each once, in no
    /// particular order.
    pub fn get_expired_objects(&self, now: u128) -> (expired: Vec<usize>)
        ensures
            expired@.no_duplicates(),
            forall|id: usize| expired@.contains(id) <==> self@.expired(id, now),
    {
        let mut expired: Vec<usize> = Vec::new();
        if self.policy.is_never() {
            return expired;
        }
        let keys = self.metadata.keys();
        let ghost all = keys.remaining();
        assert(all.unref().to_set() == self.metadata@.dom());
        assert(all.no_duplicates());
        for id in it: keys
            invariant
                all == it.seq(),
                all.unref().to_set() == self.metadata@.dom(),
                all.no_duplicates(),
                !(self.policy is Never),
                expired@.no_duplicates(),
                forall|i: int|
                    0 <= i < expired@.len() ==> self@.expired(#[trigger] expired@[i], now)
                        && among(all, it.index() as int, expired@[i]),
                forall|k: int|
                    0 <= k < it.index() && self@.expired(*#[trigger] all[k], now)
                        ==> expired@.contains(*all[k]),
        {
            let ghost n = it.index();
            let ghost so_far = expired@;
            assert(all.unref()[n] == *id);
            assert(all.unref().to_set().contains(*id));
            let stale = match self.metadata.get(id) {
                Some(meta) => meta.is_expired(&self.policy, now),
                None => false,
            };
            if stale {
                proof {
                    if so_far.contains(*id) {
                        let i = choose|i: int| 0 <= i < so_far.len() && so_far[i] == *id;
                        let k = choose|k: int| 0 <= k < n && *all[k] == so_far[i];
                        assert(all[k] == all[n]);
                    }
                }
                expired.push(*id);
            }
            proof {
                assert forall|i: int| 0 <= i < expired@.len() implies self@.expired(
                    #[trigger] expired@[i],
                    now,
                ) && among(all, n + 1, expired@[i]) by {
                    if i < so_far.len() {
                        assert(expired@[i] == so_far[i]);
                        let k = choose|k: int| 0 <= k < n && *all[k] == so_far[i];
                        assert(0 <= k < n + 1 && *all[k] == expired@[i]);
                    } else {
                        assert(*all[n] == expired@[i]);
                    }
                }
                assert forall|k: int|
                    0 <= k < n + 1 && self@.expired(*#[trigger] all[k], now) implies expired@.contains(
                    *all[k],
                ) by {
                    if k < n {
                        let i = choose|i: int| 0 <= i < so_far.len() && so_far[i] == *all[k];
                        assert(expired@[i] == *all[k]);
                    } else {
                        assert(expired@[so_far.len() as int] == *all[k]);
                    }
                }
            }
        }
        proof {
            assert forall|id: usize| self@.expired(id, now) implies expired@.contains(id) by {
                assert(all.unref().to_set().contains(id));
                let k = choose|k: int| 0 <= k < all.unref().len() && all.unref()[k] == id;
                assert(*all[k] == id);
            }
        }
        expired
    }
}

/// Every operation of the tracker keeps it well formed.
pub proof fn lemma_tracker_stays_wf(s: EvictionState, id: usize, now: u128)
    requires
        s.wf(),
    ensures
        s.track(id, now).wf(),
        s.touch(id, now).wf(),
        s.remove(id).wf(),
{
    assert(s.remove(id).entries.dom() =~= s.entries.dom().remove(id));
    if s.policy is Never {
        assert(s.remove(id).entries =~= Map::<usize, ObjectMetadata>::empty());
    }
}

/// A use of a tracked object stamps it with the time of the use and leaves
/// every other stamp in the tracker alone; under a clock that does not run
/// backwards the time of last use never moves back.
pub proof fn lemma_tracker_touch_monotone(s: EvictionState, id: usize, now: u128)
    requires
        s.entries.contains_key(id) ==> s.entries[id].last_used <= now,
    ensures
        s.touch(id, now).entries.dom() == s.entries.dom(),
        forall|other: usize|
            s.entries.contains_key(other) ==> {
                &&& (#[trigger] s.touch(id, now).entries[other]).last_used
                    >= s.entries[other].last_used
                &&& s.touch(id, now).entries[other].created_at == s.entries[other].created_at
                &&& other != id ==> s.touch(id, now).entries[other] == s.entries[other]
            },
        s.entries.contains_key(id) && !(s.policy is Never) ==> s.touch(id, now).entries[id].last_used
            == now,
{
    assert(s.touch(id, now).entries.dom() =~= s.entries.dom());
}

/// Under a clock that does not run backwards, a use never moves the time of
/// last use back, and it leaves the time of creation alone.
pub proof fn lemma_touch_monotone(meta: ObjectMetadata, now: u128)
    requires
        meta.last_used <= now,
    ensures
        meta.touched(now).last_used >= meta.last_used,
        meta.touched(now).last_used == now,
        meta.touched(now).created_at == meta.created_at,
{
}

} // verus!
