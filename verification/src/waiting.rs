//! Waiting for an object: what to do after each attempt of a checkout that
//! is willing to wait.
//!
//! A waiting checkout tries, pauses, and tries again until it gets an object
//! or its time is up. The pausing is the caller's business; what to do next
//! after an attempt is decided here.
use crate::config::PoolConfiguration;
use crate::errors::PoolError;
use crate::pool::PooledObject;
use crate::time::duration_nanos;
use std::time::Duration;
use vstd::prelude::*;

verus! {

/// The longest pause between two attempts, in nanoseconds: ten
/// milliseconds.
pub const POLL_INTERVAL_NANOS: u128 = 10_000_000;

/// The seconds a waiting checkout waits where the configuration sets no
/// limit.
pub const DEFAULT_WAIT_SECS: u64 = 30;

/// What a waiting checkout does after an attempt.
pub enum WaitStep<T> {
    /// The attempt got an object: hand it out.
    Ready(PooledObject<T>),
    /// The attempt got nothing and time is left: pause for this many
    /// nanoseconds, then try again.
    Retry(u128),
    /// The attempt got nothing and the time is up: fail with this error.
    TimedOut(PoolError),
}

/// The pause before the next attempt of a checkout that has waited
/// `waited` nanoseconds of the `limit` it may wait: the polling interval, or
/// what is left of the limit if that is less.
pub open spec fn pause_for(waited: u128, limit: nat) -> nat {
    if limit - waited < POLL_INTERVAL_NANOS {
        (limit - waited) as nat
    } else {
        POLL_INTERVAL_NANOS as nat
    }
}

/// Decides what a waiting checkout does after an attempt that came back
/// with `leased`, `waited` nanoseconds after the checkout began, where the
/// checkout may wait for `limit`.
///
/// An object is handed out whenever the attempt got one. Without one the
/// checkout fails with `Timeout(limit)` once it has waited for the whole
/// limit, and pauses before another attempt as long as it has not.
pub fn next_wait_step<T>(leased: Option<PooledObject<T>>, waited: u128, limit: Duration) -> (step:
    WaitStep<T>)
    ensures
        match leased {
            Some(lease) => step == WaitStep::Ready(lease),
            None => if waited >= duration_nanos(limit) {
                step == WaitStep::<T>::TimedOut(PoolError::Timeout(limit))
            } else {
                step == WaitStep::<T>::Retry(pause_for(waited, duration_nanos(limit)) as u128)
            },
        },
{
    match leased {
        Some(lease) => WaitStep::Ready(lease),
        None => {
            let limit_nanos = limit.as_nanos();
            if waited >= limit_nanos {
                WaitStep::TimedOut(PoolError::Timeout(limit))
            } else if limit_nanos - waited < POLL_INTERVAL_NANOS {
                WaitStep::Retry(limit_nanos - waited)
            } else {
                WaitStep::Retry(POLL_INTERVAL_NANOS)
            }
        },
    }
}

impl<T, V> PoolConfiguration<T, V> {
    /// How long a waiting checkout may wait: the configured timeout, or
    /// thirty seconds where none is configured.
    pub fn wait_limit(&self) -> (limit: Duration)
        ensures
            match self.operation_timeout {
                Some(timeout) => limit == timeout,
                None => duration_nanos(limit) == DEFAULT_WAIT_SECS * 1_000_000_000,
            },
    {
        match self.operation_timeout {
            Some(timeout) => timeout,
            None => Duration::from_secs(DEFAULT_WAIT_SECS),
        }
    }
}

} // verus!
