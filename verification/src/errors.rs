//! The failures a pool reports.
use std::time::Duration;
use vstd::prelude::*;

verus! {

/// Why a pool operation did not produce an object.
#[derive(Debug, Clone)]
pub enum PoolError {
    /// No entry is available and none can be made.
    PoolEmpty,
    /// A growing pool has no room for another entry.
    PoolFull,
    /// A bounded wait for an entry ran out after the given time.
    Timeout(Duration),
    /// No available entry satisfied the caller's predicate.
    NoMatchFound,
    /// An object failed validation. No pool operation reports this today; the
    /// variant is kept so that callers can match on a stable set.
    ValidationFailed,
    /// The circuit breaker refuses checkouts.
    CircuitBreakerOpen,
    /// The cap on simultaneous leases is reached.
    MaxActiveObjectsReached,
    /// Work handed to another executor was abandoned.
    Cancelled,
}

pub type PoolResult<T> = Result<T, PoolError>;

} // verus!
