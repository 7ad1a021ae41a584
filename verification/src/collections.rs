//! The two containers a pool is built on: a bounded queue of the identities
//! on the shelf and a map of the identities on lease.
//!
//! Both come from outside this crate and are opaque to the verifier. What
//! they hold is named by a specification function each, and the operations
//! the pool uses are stated over those names. The pool owns its containers
//! and reaches them through exclusive references only, so each operation
//! sees the container exactly as the previous one left it.
use crossbeam::queue::ArrayQueue;
use dashmap::DashMap;
use vstd::prelude::*;

verus! {

/// `crossbeam::queue::ArrayQueue`, a bounded first-in-first-out queue, as
/// an opaque type.
#[verifier::external_type_specification]
#[verifier::external_body]
#[verifier::reject_recursive_types(T)]
pub struct ExArrayQueue<T>(ArrayQueue<T>);

/// `dashmap::DashMap`, a hash map, as an opaque type.
#[verifier::external_type_specification]
#[verifier::external_body]
#[verifier::reject_recursive_types(K)]
#[verifier::reject_recursive_types(V)]
#[verifier::reject_recursive_types(S)]
pub struct ExDashMap<K, V, S>(DashMap<K, V, S>);

/// The identities in a queue, oldest first.
pub uninterp spec fn queue_items(queue: ArrayQueue<usize>) -> Seq<usize>;

/// The number of identities a queue was made to hold.
pub uninterp spec fn queue_limit(queue: ArrayQueue<usize>) -> nat;

/// The identities that are keys of a map.
pub uninterp spec fn map_keys(map: DashMap<usize, ()>) -> Set<usize>;

/// The largest number of slots a queue can be made with: the buffer of
/// sixteen-byte slots must fit the address space.
pub open spec fn queue_limit_fits(limit: nat) -> bool {
    0 < limit && 16 * limit <= isize::MAX
}

/// `ArrayQueue::new` makes an empty queue with room for `limit` items. It
/// panics on a limit of zero and on one whose buffer cannot be laid out.
#[verifier::external_body]
pub(crate) fn queue_new(limit: usize) -> (queue: ArrayQueue<usize>)
    requires
        queue_limit_fits(limit as nat),
    ensures
        queue_items(queue) == Seq::<usize>::empty(),
        queue_limit(queue) == limit,
{
    ArrayQueue::new(limit)
}

/// `ArrayQueue::push_mut` appends `id` behind the newest item, or hands it
/// back when the queue already holds as many items as it has room for.
#[verifier::external_body]
pub(crate) fn queue_push(queue: &mut ArrayQueue<usize>, id: usize) -> (pushed: Result<(), usize>)
    ensures
        queue_limit(*final(queue)) == queue_limit(*old(queue)),
        pushed is Ok <==> queue_items(*old(queue)).len() < queue_limit(*old(queue)),
        pushed is Ok ==> queue_items(*final(queue)) == queue_items(*old(queue)).push(id),
        pushed matches Err(back) ==> back == id && queue_items(*final(queue)) == queue_items(
            *old(queue),
        ),
{
    queue.push_mut(id)
}

/// `ArrayQueue::pop_mut` takes the oldest item out, or reports that the
/// queue is empty.
#[verifier::external_body]
pub(crate) fn queue_pop(queue: &mut ArrayQueue<usize>) -> (popped: Option<usize>)
    ensures
        queue_limit(*final(queue)) == queue_limit(*old(queue)),
        popped is Some <==> queue_items(*old(queue)).len() > 0,
        popped matches Some(id) ==> id == queue_items(*old(queue)).first() && queue_items(
            *final(queue),
        ) == queue_items(*old(queue)).drop_first(),
        popped is None ==> queue_items(*final(queue)) == queue_items(*old(queue)),
{
    queue.pop_mut()
}

/// `ArrayQueue::len` counts the items in the queue.
#[verifier::external_body]
pub(crate) fn queue_len(queue: &ArrayQueue<usize>) -> (len: usize)
    ensures
        len == queue_items(*queue).len(),
{
    queue.len()
}

/// `DashMap::new` makes a map without keys.
#[verifier::external_body]
pub(crate) fn map_new() -> (map: DashMap<usize, ()>)
    ensures
        map_keys(map) == Set::<usize>::empty(),
{
    DashMap::new()
}

/// `DashMap::insert` makes `id` a key and reports whether it was one
/// before.
#[verifier::external_body]
pub(crate) fn map_insert(map: &mut DashMap<usize, ()>, id: usize) -> (previous: Option<()>)
    ensures
        map_keys(*final(map)) == map_keys(*old(map)).insert(id),
        previous is Some <==> map_keys(*old(map)).contains(id),
{
    map.insert(id, ())
}

/// `DashMap::remove` takes the key `id` out and hands back the entry it
/// had, if it was a key.
#[verifier::external_body]
pub(crate) fn map_remove(map: &mut DashMap<usize, ()>, id: usize) -> (removed: Option<(usize, ())>)
    ensures
        map_keys(*final(map)) == map_keys(*old(map)).remove(id),
        removed is Some <==> map_keys(*old(map)).contains(id),
        removed matches Some(entry) ==> entry.0 == id,
{
    map.remove(&id)
}

/// `DashMap::contains_key` tells whether `id` is a key.
#[verifier::external_body]
pub(crate) fn map_contains(map: &DashMap<usize, ()>, id: usize) -> (found: bool)
    ensures
        found == map_keys(*map).contains(id),
{
    map.contains_key(&id)
}

/// `DashMap::len` counts the keys.
#[verifier::external_body]
pub(crate) fn map_len(map: &DashMap<usize, ()>) -> (len: usize)
    requires
        map_keys(*map).finite(),
    ensures
        len == map_keys(*map).len(),
{
    map.len()
}

} // verus!
