//! Time as the pool sees it: spans in nanoseconds, instants as nanoseconds
//! since a clock was started.
use std::time::Duration;
use std::time::Instant;
use vstd::prelude::*;

verus! {

/// The length of a span of time in nanoseconds, as `Duration::as_nanos`
/// reports it.
pub uninterp spec fn duration_nanos(d: Duration) -> nat;

/// `Duration::as_nanos` measures the whole span in nanoseconds; the result is
/// what the contracts of this crate call `duration_nanos`.
pub assume_specification[ Duration::as_nanos ](d: &Duration) -> (nanos: u128)
    ensures
        nanos == duration_nanos(*d),
;

/// `Duration::from_secs` builds a span of exactly `secs` whole seconds.
pub assume_specification[ Duration::from_secs ](secs: u64) -> (d: Duration)
    ensures
        duration_nanos(d) == secs * 1_000_000_000,
;

/// A `Duration` is plain data: its clone is the same span.
pub assume_specification[ <Duration as Clone>::clone ](d: &Duration) -> (copy: Duration)
    ensures
        copy == *d,
;

/// `std::time::Instant`, a reading of the monotonic clock, as an opaque
/// type.
#[verifier::external_type_specification]
#[verifier::external_body]
pub struct ExInstant(Instant);

/// `Instant::now` reads the monotonic clock. Nothing is claimed of the value:
/// it depends on when the call is made.
pub assume_specification[ Instant::now ]() -> (now: Instant);

/// `Instant::elapsed` measures the time since the instant was taken. Nothing
/// is claimed of the value: it depends on when the call is made.
pub assume_specification[ Instant::elapsed ](start: &Instant) -> (span: Duration);

/// A monotonic clock that counts nanoseconds from the moment it was started.
///
/// The clock remembers its latest reading and never reports less: should the
/// machine's clock ever fall behind that reading, the reading is reported
/// again.
pub struct Clock {
    origin: Instant,
    latest: u128,
}

impl Clock {
    /// The latest reading of the clock; zero as long as it has not been
    /// read.
    pub closed spec fn latest(&self) -> u128 {
        self.latest
    }

    /// Starts a clock. It has not been read yet.
    pub fn new() -> (clock: Self)
        ensures
            clock.latest() == 0,
    {
        Clock { origin: Instant::now(), latest: 0 }
    }

    /// Reads the clock: nanoseconds since it was started. A reading is
    /// never less than the one before it, and it becomes the latest
    /// reading.
    pub fn now(&mut self) -> (nanos: u128)
        ensures
            nanos >= old(self).latest(),
            final(self).latest() == nanos,
    {
        let read = self.origin.elapsed().as_nanos();
        if read > self.latest {
            self.latest = read;
        }
        self.latest
    }

    /// The latest reading of the clock, without reading it again.
    pub fn last_reading(&self) -> (nanos: u128)
        ensures
            nanos == self.latest(),
    {
        self.latest
    }
}

} // verus!
