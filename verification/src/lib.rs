//! A pool of reusable objects.
//!
//! A pool lends each of its objects to one holder at a time. The holder gets a
//! lease, works with the object through it, and hands the lease back; the pool
//! then decides whether the object goes back on the shelf or is discarded.
//! Three policies shape that cycle: entries can expire by age or by idleness,
//! a circuit breaker can refuse checkouts after repeated failures, and the
//! number of simultaneous leases can be capped.
//!
//! Every pool here is a sequential state machine: its operations take
//! `&mut self`, and each one is specified as a function on a mathematical
//! model of the pool ([`pool_state::PoolState`]). Time enters as a number of
//! nanoseconds; the operations without a time parameter read the pool's
//! monotonic clock and then behave as their timed counterparts at the time
//! read, which is never before an earlier reading.
use vstd::prelude::*;

pub mod circuit_breaker;
pub mod collections;
pub mod config;
pub mod counter;
pub mod errors;
pub mod eviction;
pub mod health;
pub mod laws;
pub mod metrics;
pub mod pool;
pub mod pool_state;
pub mod text;
pub mod time;
pub mod waiting;

pub use circuit_breaker::{CircuitBreaker, CircuitBreakerState};
pub use config::{NoValidation, PoolConfiguration, Validator};
pub use errors::{PoolError, PoolResult};
pub use eviction::EvictionPolicy;
pub use health::HealthStatus;
pub use metrics::{MetricsExporter, PoolMetrics};
pub use pool::{DynamicObjectPool, LeasePool, ObjectPool, PooledObject, QueryableObjectPool};
pub use time::Clock;
pub use waiting::{next_wait_step, WaitStep};
