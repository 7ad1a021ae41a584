//! Event counters that stop at the largest `usize` instead of wrapping, so
//! that a reading never goes down.
use vstd::prelude::*;

verus! {

/// One more, for a counter that stops at the largest `usize`.
pub open spec fn counted(n: nat) -> nat {
    if n < usize::MAX {
        n + 1
    } else {
        n
    }
}

/// Counts one more event.
pub fn count_up(n: usize) -> (m: usize)
    ensures
        m == counted(n as nat),
        m >= n,
{
    if n < usize::MAX {
        n + 1
    } else {
        n
    }
}

} // verus!
