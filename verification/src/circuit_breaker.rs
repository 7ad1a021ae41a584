//! A circuit breaker: an admission gate that closes off checkouts after
//! repeated failures and lets them back in after a quiet period.
use crate::counter::{count_up, counted};
use crate::time::duration_nanos;
use std::time::Duration;
use vstd::prelude::*;

verus! {

/// The three positions of the breaker.
#[derive(Debug, Clone, Copy, PartialEq, Eq, Structural)]
pub enum CircuitBreakerState {
    /// Requests pass; failures are counted.
    Closed,
    /// Requests are refused until the reset timeout has passed.
    Open,
    /// Requests pass on probation: a few successes close the breaker, one
    /// failure opens it again.
    HalfOpen,
}

/// Successes on probation that close the breaker again.
pub const RECOVERY_SUCCESSES: usize = 3;

/// What a breaker is: its position, its two counters, its two settings and
/// the time of the last recorded failure. Times are nanoseconds.
pub struct BreakerState {
    pub state: CircuitBreakerState,
    pub failures: nat,
    pub successes: nat,
    pub threshold: nat,
    pub reset_timeout: nat,
    pub last_failure: Option<nat>,
}

impl BreakerState {
    /// A breaker that has seen nothing yet.
    pub open spec fn fresh(threshold: nat, reset_timeout: nat) -> BreakerState {
        BreakerState {
            state: CircuitBreakerState::Closed,
            failures: 0,
            successes: 0,
            threshold,
            reset_timeout,
            last_failure: None,
        }
    }

    /// Whether an open breaker has waited long enough to try again.
    pub open spec fn cooled_down(self, now: u128) -> bool {
        self.last_failure matches Some(at) && now - at > self.reset_timeout
    }

    /// Whether a request at `now` is admitted.
    pub open spec fn allows(self, now: u128) -> bool {
        self.state != CircuitBreakerState::Open || self.cooled_down(now)
    }

    /// The breaker after an admission check at `now`: an open breaker that
    /// has cooled down goes on probation, anything else stays as it is.
    pub open spec fn after_admission(self, now: u128) -> BreakerState {
        if self.state == CircuitBreakerState::Open && self.cooled_down(now) {
            BreakerState { state: CircuitBreakerState::HalfOpen, successes: 0, ..self }
        } else {
            self
        }
    }

    /// The breaker after one recorded success. In a closed breaker the
    /// success ends the run of failures: the failure count starts again at
    /// zero. On probation the success that makes the count of successes
    /// full closes the breaker and clears both counters.
    pub open spec fn after_success(self) -> BreakerState {
        let successes = counted(self.successes);
        if self.state == CircuitBreakerState::Closed {
            BreakerState { failures: 0, successes, ..self }
        } else if self.state == CircuitBreakerState::HalfOpen && successes >= RECOVERY_SUCCESSES {
            BreakerState { state: CircuitBreakerState::Closed, failures: 0, successes: 0, ..self }
        } else {
            BreakerState { successes, ..self }
        }
    }

    /// The breaker after one failure recorded at `now`.
    pub open spec fn after_failure(self, now: u128) -> BreakerState {
        let failures = counted(self.failures);
        let state = if self.state == CircuitBreakerState::Closed && failures < self.threshold {
            CircuitBreakerState::Closed
        } else {
            CircuitBreakerState::Open
        };
        BreakerState { state, failures, last_failure: Some(now as nat), ..self }
    }

    /// The breaker after a reset: closed, both counters cleared.
    pub open spec fn after_reset(self) -> BreakerState {
        BreakerState { state: CircuitBreakerState::Closed, failures: 0, successes: 0, ..self }
    }

    /// The breaker after failures recorded one after another at `times`.
    pub open spec fn after_failures(self, times: Seq<u128>) -> BreakerState
        decreases times.len(),
    {
        if times.len() == 0 {
            self
        } else {
            self.after_failures(times.drop_last()).after_failure(times.last())
        }
    }
}

/// An admission gate that counts the failures that follow one another.
pub struct CircuitBreaker {
    state: CircuitBreakerState,
    failure_count: usize,
    success_count: usize,
    failure_threshold: usize,
    timeout: u128,
    last_failure_time: Option<u128>,
}

impl View for CircuitBreaker {
    type V = BreakerState;

    closed spec fn view(&self) -> BreakerState {
        BreakerState {
            state: self.state,
            failures: self.failure_count as nat,
            successes: self.success_count as nat,
            threshold: self.failure_threshold as nat,
            reset_timeout: self.timeout as nat,
            last_failure: match self.last_failure_time {
                Some(at) => Some(at as nat),
                None => None,
            },
        }
    }
}

impl CircuitBreaker {
    /// A closed breaker that opens at `failure_threshold` failures in a row
    /// and cools down for `timeout`.
    pub fn new(failure_threshold: usize, timeout: Duration) -> (breaker: Self)
        ensures
            breaker@ == BreakerState::fresh(failure_threshold as nat, duration_nanos(timeout)),
    {
        CircuitBreaker {
            state: CircuitBreakerState::Closed,
            failure_count: 0,
            success_count: 0,
            failure_threshold,
            timeout: timeout.as_nanos(),
            last_failure_time: None,
        }
    }

    /// The current position.
    pub fn state(&self) -> (state: CircuitBreakerState)
        ensures
            state == self@.state,
    {
        self.state
    }

    /// Decides whether a request at `now` is admitted. An open breaker whose
    /// last failure lies more than the reset timeout back admits the request
    /// and goes on probation.
    pub fn allow_request(&mut self, now: u128) -> (allowed: bool)
        ensures
            allowed == old(self)@.allows(now),
            final(self)@ == old(self)@.after_admission(now),
    {
        match self.state {
            CircuitBreakerState::Closed => true,
            CircuitBreakerState::HalfOpen => true,
            CircuitBreakerState::Open => {
                match self.last_failure_time {
                    Some(at) => {
                        if now > at && now - at > self.timeout {
                            self.transition_to_half_open();
                            true
                        } else {
                            false
                        }
                    },
                    None => false,
                }
            },
        }
    }

    /// Records a success. In a closed breaker it ends the run of failures,
    /// so that only failures that follow one another count towards the
    /// threshold. The third counted success on probation closes the breaker
    /// and clears both counters.
    pub fn record_success(&mut self)
        ensures
            final(self)@ == old(self)@.after_success(),
    {
        self.success_count = count_up(self.success_count);
        match self.state {
            CircuitBreakerState::Closed => {
                self.failure_count = 0;
            },
            CircuitBreakerState::HalfOpen => {
                if self.success_count >= RECOVERY_SUCCESSES {
                    self.transition_to_closed();
                }
            },
            CircuitBreakerState::Open => {},
        }
    }

    /// Records a failure at `now`. A closed breaker opens once the failures
    /// counted since the last success reach the threshold; a breaker on
    /// probation opens at once.
    pub fn record_failure(&mut self, now: u128)
        ensures
            final(self)@ == old(self)@.after_failure(now),
    {
        self.failure_count = count_up(self.failure_count);
        self.last_failure_time = Some(now);
        match self.state {
            CircuitBreakerState::Closed => {
                if self.failure_count >= self.failure_threshold {
                    self.transition_to_open();
                }
            },
            CircuitBreakerState::HalfOpen => {
                self.transition_to_open();
            },
            CircuitBreakerState::Open => {},
        }
    }

    fn transition_to_open(&mut self)
        ensures
            final(self)@ == (BreakerState { state: CircuitBreakerState::Open, ..old(self)@ }),
    {
        self.state = CircuitBreakerState::Open;
    }

    fn transition_to_half_open(&mut self)
        ensures
            final(self)@ == (BreakerState {
                state: CircuitBreakerState::HalfOpen,
                successes: 0,
                ..old(self)@
            }),
    {
        self.state = CircuitBreakerState::HalfOpen;
        self.success_count = 0;
    }

    fn transition_to_closed(&mut self)
        ensures
            final(self)@ == old(self)@.after_reset(),
    {
        self.state = CircuitBreakerState::Closed;
        self.failure_count = 0;
        self.success_count = 0;
    }

    /// Closes the breaker and clears both counters.
    pub fn reset(&mut self)
        ensures
            final(self)@ == old(self)@.after_reset(),
    {
        self.transition_to_closed();
    }
}

impl Default for CircuitBreaker {
    /// A breaker that opens at five failures and cools down for a minute.
    fn default() -> (breaker: Self)
        ensures
            breaker@ == BreakerState::fresh(5, 60_000_000_000),
    {
        CircuitBreaker::new(5, Duration::from_secs(60))
    }
}

/// A run of failures leaves the settings alone, counts every failure up to
/// the largest `usize`, and stamps the last one.
pub proof fn lemma_failures_counted(b: BreakerState, times: Seq<u128>)
    ensures
        b.after_failures(times).threshold == b.threshold,
        b.after_failures(times).reset_timeout == b.reset_timeout,
        b.failures + times.len() <= usize::MAX ==> b.after_failures(times).failures == b.failures
            + times.len(),
        b.failures + times.len() > usize::MAX ==> b.after_failures(times).failures >= usize::MAX,
        times.len() > 0 ==> b.after_failures(times).last_failure == Some(
            times.last() as nat,
        ),
    decreases times.len(),
{
    if times.len() > 0 {
        lemma_failures_counted(b, times.drop_last());
    }
}

/// A closed breaker with a clean count stays closed through fewer failures
/// than its threshold and is open after any run that reaches the threshold:
/// it opens at the failure that reaches the threshold and at no other.
pub proof fn lemma_opens_at_threshold(b: BreakerState, times: Seq<u128>)
    requires
        b.state == CircuitBreakerState::Closed,
        b.failures == 0,
        b.threshold <= usize::MAX,
    ensures
        0 < times.len() < b.threshold ==> b.after_failures(times).state
            == CircuitBreakerState::Closed,
        0 < times.len() && times.len() >= b.threshold ==> b.after_failures(times).state
            == CircuitBreakerState::Open,
    decreases times.len(),
{
    if times.len() > 0 {
        lemma_failures_counted(b, times.drop_last());
        lemma_opens_at_threshold(b, times.drop_last());
    }
}

/// The threshold counts failures that follow one another. A success in a
/// closed breaker leaves it closed with a clean failure count, whatever the
/// count was; after it the breaker stays closed through fewer failures than
/// the threshold and is open after any run that reaches the threshold.
pub proof fn lemma_consecutive_failures_open(b: BreakerState, times: Seq<u128>)
    requires
        b.state == CircuitBreakerState::Closed,
        b.threshold <= usize::MAX,
    ensures
        b.after_success().state == CircuitBreakerState::Closed,
        b.after_success().failures == 0,
        b.after_success().threshold == b.threshold,
        0 < times.len() < b.threshold ==> b.after_success().after_failures(times).state
            == CircuitBreakerState::Closed,
        0 < times.len() && times.len() >= b.threshold ==> b.after_success().after_failures(
            times,
        ).state == CircuitBreakerState::Open,
{
    lemma_opens_at_threshold(b.after_success(), times);
}

/// The first admission check that comes more than the reset timeout after
/// the last failure finds an open breaker willing: the request is admitted
/// and the breaker is on probation with a clean success count. Any earlier
/// check is refused and changes nothing.
pub proof fn lemma_probe_after_timeout(b: BreakerState, at: nat, now: u128)
    requires
        b.state == CircuitBreakerState::Open,
        b.last_failure == Some(at),
    ensures
        now - at > b.reset_timeout ==> b.allows(now) && b.after_admission(now).state
            == CircuitBreakerState::HalfOpen && b.after_admission(now).successes == 0,
        now - at <= b.reset_timeout ==> !b.allows(now) && b.after_admission(now) == b,
{
}

} // verus!
