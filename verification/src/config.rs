//! The policy bundle a pool is built with.
use crate::eviction::EvictionPolicy;
use crate::time::duration_nanos;
use std::marker::PhantomData;
use std::time::Duration;
use vstd::prelude::*;

verus! {

/// A predicate that decides whether a returned object may go back on the
/// shelf. Every function or closure over a borrowed value is one.
pub trait Validator<T> {
    /// Whether the predicate can be asked about every value.
    spec fn total(&self) -> bool;

    /// Whether `accepted` is an answer the predicate gives about `value`.
    spec fn answers(&self, value: &T, accepted: bool) -> bool;

    /// Asks the predicate about `value`.
    fn ask(&self, value: &T) -> (accepted: bool)
        requires
            self.total(),
        ensures
            self.answers(value, accepted),
    ;
}

impl<T, F: Fn(&T) -> bool> Validator<T> for F {
    open spec fn total(&self) -> bool {
        forall|value: &T| call_requires(*self, (value,))
    }

    open spec fn answers(&self, value: &T, accepted: bool) -> bool {
        call_ensures(*self, (value,), accepted)
    }

    fn ask(&self, value: &T) -> (accepted: bool) {
        self(value)
    }
}

/// The predicate of a configuration without validation: it is never asked
/// and would accept everything.
#[derive(Debug, Clone, Copy)]
pub struct NoValidation;

impl<T> Validator<T> for NoValidation {
    open spec fn total(&self) -> bool {
        true
    }

    open spec fn answers(&self, value: &T, accepted: bool) -> bool {
        accepted
    }

    fn ask(&self, value: &T) -> (accepted: bool) {
        true
    }
}

/// What it means for a function or closure to be a predicate: it is total
/// where it can be called on every value, and its answers are the results
/// it can return.
pub proof fn lemma_predicate_answers<T, F: Fn(&T) -> bool>(check: F, value: &T, accepted: bool)
    ensures
        check.total() == (forall|any: &T| call_requires(check, (any,))),
        check.answers(value, accepted) == call_ensures(check, (value,), accepted),
{
}

/// How a pool behaves: its size and lease limits, validation on return,
/// expiry, warm-up and the circuit breaker. A configuration is built once
/// and handed to a pool, which never changes it.
#[verifier::reject_recursive_types(T)]
#[verifier::reject_recursive_types(V)]
pub struct PoolConfiguration<T, V = NoValidation> {
    /// The number of entries the pool has room for, unless it starts with
    /// more.
    pub max_pool_size: usize,
    /// The most objects that may be leased at once, if capped.
    pub max_active_objects: Option<usize>,
    /// Whether objects are validated when they come back.
    pub validate_on_return: bool,
    /// The predicate an object must satisfy to be taken back.
    pub validation_function: Option<V>,
    /// How long a waiting checkout may take, if bounded.
    pub operation_timeout: Option<Duration>,
    /// The age at which an object expires, if any.
    pub time_to_live: Option<Duration>,
    /// The idle time at which an object expires, if any.
    pub idle_timeout: Option<Duration>,
    /// How many objects a growing pool should make ahead of demand.
    pub warmup_size: Option<usize>,
    /// Whether checkouts go through a circuit breaker.
    pub enable_circuit_breaker: bool,
    /// The number of failures in a row at which the breaker opens.
    pub circuit_breaker_threshold: usize,
    /// How long an open breaker waits before it admits a probe.
    pub circuit_breaker_timeout: Duration,
    /// The type of the pooled values; holds nothing.
    pub value_type: PhantomData<T>,
}

impl<T, V: Clone> Clone for PoolConfiguration<T, V> {
    /// A configuration with the same settings and a clone of the predicate.
    fn clone(&self) -> (copy: Self)
        ensures
            copy.max_pool_size == self.max_pool_size,
            copy.max_active_objects == self.max_active_objects,
            copy.validate_on_return == self.validate_on_return,
            copy.validation_function is Some == self.validation_function is Some,
            copy.operation_timeout == self.operation_timeout,
            copy.time_to_live == self.time_to_live,
            copy.idle_timeout == self.idle_timeout,
            copy.warmup_size == self.warmup_size,
            copy.enable_circuit_breaker == self.enable_circuit_breaker,
            copy.circuit_breaker_threshold == self.circuit_breaker_threshold,
            copy.circuit_breaker_timeout == self.circuit_breaker_timeout,
    {
        PoolConfiguration {
            max_pool_size: self.max_pool_size,
            max_active_objects: self.max_active_objects,
            validate_on_return: self.validate_on_return,
            validation_function: match &self.validation_function {
                Some(check) => Some(check.clone()),
                None => None,
            },
            operation_timeout: self.operation_timeout,
            time_to_live: self.time_to_live,
            idle_timeout: self.idle_timeout,
            warmup_size: self.warmup_size,
            enable_circuit_breaker: self.enable_circuit_breaker,
            circuit_breaker_threshold: self.circuit_breaker_threshold,
            circuit_breaker_timeout: self.circuit_breaker_timeout,
            value_type: PhantomData,
        }
    }
}

impl<T> Default for PoolConfiguration<T, NoValidation> {
    /// Room for a hundred entries, no cap on leases, no validation, waits of
    /// up to thirty seconds, no expiry, no warm-up, and a circuit breaker
    /// that is switched off but set to five failures and one minute.
    fn default() -> (config: Self)
        ensures
            config.max_pool_size == 100,
            config.max_active_objects is None,
            !config.validate_on_return,
            config.validation_function is None,
            config.operation_timeout matches Some(wait) && duration_nanos(wait)
                == 30_000_000_000,
            config.time_to_live is None,
            config.idle_timeout is None,
            config.warmup_size is None,
            !config.enable_circuit_breaker,
            config.circuit_breaker_threshold == 5,
            duration_nanos(config.circuit_breaker_timeout) == 60_000_000_000,
    {
        PoolConfiguration {
            max_pool_size: 100,
            max_active_objects: None,
            validate_on_return: false,
            validation_function: None,
            operation_timeout: Some(Duration::from_secs(30)),
            time_to_live: None,
            idle_timeout: None,
            warmup_size: None,
            enable_circuit_breaker: false,
            circuit_breaker_threshold: 5,
            circuit_breaker_timeout: Duration::from_secs(60),
            value_type: PhantomData,
        }
    }
}

impl<T> PoolConfiguration<T, NoValidation> {
    /// The default configuration.
    pub fn new() -> (config: Self)
        ensures
            config.max_pool_size == 100,
            config.max_active_objects is None,
            !config.validate_on_return,
            config.validation_function is None,
            config.operation_timeout matches Some(wait) && duration_nanos(wait)
                == 30_000_000_000,
            config.time_to_live is None,
            config.idle_timeout is None,
            config.warmup_size is None,
            !config.enable_circuit_breaker,
            config.circuit_breaker_threshold == 5,
            duration_nanos(config.circuit_breaker_timeout) == 60_000_000_000,
    {
        PoolConfiguration::default()
    }
}

impl<T, V> PoolConfiguration<T, V> {
    /// The expiry policy the two expiry options amount to.
    pub open spec fn policy(self) -> EvictionPolicy {
        match (self.time_to_live, self.idle_timeout) {
            (Some(ttl), Some(idle)) => EvictionPolicy::Combined { ttl, idle_timeout: idle },
            (Some(ttl), None) => EvictionPolicy::TimeToLive(ttl),
            (None, Some(idle)) => EvictionPolicy::IdleTimeout(idle),
            (None, None) => EvictionPolicy::Never,
        }
    }

    /// Sets the room for entries.
    pub fn with_max_pool_size(self, size: usize) -> (config: Self)
        ensures
            config == (PoolConfiguration { max_pool_size: size, ..self }),
    {
        let mut config = self;
        config.max_pool_size = size;
        config
    }

    /// Caps the number of simultaneous leases.
    pub fn with_max_active_objects(self, count: usize) -> (config: Self)
        ensures
            config == (PoolConfiguration { max_active_objects: Some(count), ..self }),
    {
        let mut config = self;
        config.max_active_objects = Some(count);
        config
    }

    /// Switches validation on return on, with `func` as the predicate. The
    /// predicate must be one that can be asked about every value. All other
    /// settings are kept.
    pub fn with_validation<F: Fn(&T) -> bool>(self, func: F) -> (config: PoolConfiguration<T, F>)
        requires
            forall|value: &T| call_requires(func, (value,)),
        ensures
            config.validate_on_return,
            config.validation_function == Some(func),
            config.max_pool_size == self.max_pool_size,
            config.max_active_objects == self.max_active_objects,
            config.operation_timeout == self.operation_timeout,
            config.time_to_live == self.time_to_live,
            config.idle_timeout == self.idle_timeout,
            config.warmup_size == self.warmup_size,
            config.enable_circuit_breaker == self.enable_circuit_breaker,
            config.circuit_breaker_threshold == self.circuit_breaker_threshold,
            config.circuit_breaker_timeout == self.circuit_breaker_timeout,
            config.validates(),
            config.sound(),
    {
        PoolConfiguration {
            max_pool_size: self.max_pool_size,
            max_active_objects: self.max_active_objects,
            validate_on_return: true,
            validation_function: Some(func),
            operation_timeout: self.operation_timeout,
            time_to_live: self.time_to_live,
            idle_timeout: self.idle_timeout,
            warmup_size: self.warmup_size,
            enable_circuit_breaker: self.enable_circuit_breaker,
            circuit_breaker_threshold: self.circuit_breaker_threshold,
            circuit_breaker_timeout: self.circuit_breaker_timeout,
            value_type: PhantomData,
        }
    }

    /// Bounds waiting checkouts.
    pub fn with_timeout(self, timeout: Duration) -> (config: Self)
        ensures
            config == (PoolConfiguration { operation_timeout: Some(timeout), ..self }),
    {
        let mut config = self;
        config.operation_timeout = Some(timeout);
        config
    }

    /// Lets objects expire by age.
    pub fn with_ttl(self, ttl: Duration) -> (config: Self)
        ensures
            config == (PoolConfiguration { time_to_live: Some(ttl), ..self }),
    {
        let mut config = self;
        config.time_to_live = Some(ttl);
        config
    }

    /// Lets objects expire by idleness.
    pub fn with_idle_timeout(self, timeout: Duration) -> (config: Self)
        ensures
            config == (PoolConfiguration { idle_timeout: Some(timeout), ..self }),
    {
        let mut config = self;
        config.idle_timeout = Some(timeout);
        config
    }

    /// Sets the number of objects to make ahead of demand.
    pub fn with_warmup(self, size: usize) -> (config: Self)
        ensures
            config == (PoolConfiguration { warmup_size: Some(size), ..self }),
    {
        let mut config = self;
        config.warmup_size = Some(size);
        config
    }

    /// Switches the circuit breaker on, with its two settings.
    pub fn with_circuit_breaker(self, threshold: usize, timeout: Duration) -> (config: Self)
        ensures
            config == (PoolConfiguration {
                enable_circuit_breaker: true,
                circuit_breaker_threshold: threshold,
                circuit_breaker_timeout: timeout,
                ..self
            }),
    {
        let mut config = self;
        config.enable_circuit_breaker = true;
        config.circuit_breaker_threshold = threshold;
        config.circuit_breaker_timeout = timeout;
        config
    }

    /// The expiry policy the two expiry options amount to.
    pub fn eviction_policy(&self) -> (policy: EvictionPolicy)
        ensures
            policy == self.policy(),
    {
        match (self.time_to_live, self.idle_timeout) {
            (Some(ttl), Some(idle)) => EvictionPolicy::Combined { ttl, idle_timeout: idle },
            (Some(ttl), None) => EvictionPolicy::TimeToLive(ttl),
            (None, Some(idle)) => EvictionPolicy::IdleTimeout(idle),
            (None, None) => EvictionPolicy::Never,
        }
    }
}

impl<T, V: Validator<T>> PoolConfiguration<T, V> {
    /// Whether returned objects are put to a predicate.
    pub open spec fn validates(self) -> bool {
        self.validate_on_return && self.validation_function is Some
    }

    /// Whether the predicate, if there is one, can be asked about every
    /// value.
    pub open spec fn sound(self) -> bool {
        self.validation_function matches Some(check) ==> check.total()
    }

    /// Whether `accepted` is a verdict of this configuration on `value`:
    /// an answer of the predicate where validation is switched on, and yes
    /// where it is not.
    pub open spec fn verdict(self, value: &T, accepted: bool) -> bool {
        if self.validates() {
            self.validation_function->Some_0.answers(value, accepted)
        } else {
            accepted
        }
    }

    /// Whether `value` may go back into the pool: what the predicate says
    /// where validation is switched on, and yes where it is not.
    pub fn accepts(&self, value: &T) -> (accepted: bool)
        requires
            self.sound(),
        ensures
            self.verdict(value, accepted),
    {
        if self.validate_on_return {
            match &self.validation_function {
                Some(check) => check.ask(value),
                None => true,
            }
        } else {
            true
        }
    }
}

} // verus!
