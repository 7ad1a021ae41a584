//! The health of a pool at a glance, and the counters behind it.
use crate::counter::{count_up, counted};
use crate::text::{one_place, push_one_place, ratio_scaled, scaled_ratio};
use vstd::prelude::*;
use vstd::string::StringExecFns;

verus! {

/// Whether more than nine tenths of the capacity are on lease.
pub open spec fn overloaded(active: nat, capacity: nat) -> bool {
    capacity > 0 && 10 * active > 9 * capacity
}

/// Whether a pool that has capacity has nothing on the shelf.
pub open spec fn drained(available: nat, capacity: nat) -> bool {
    available == 0 && capacity > 0
}

/// The warning about high utilization: the share on lease in percent, with
/// one decimal place.
pub open spec fn overload_warning(active: nat, capacity: nat) -> Seq<char> {
    "High utilization: "@ + one_place(scaled_ratio(active, capacity, 1000)) + "%"@
}

/// The warnings a pool with these gauges earns, in order: high utilization
/// first, then an empty shelf.
pub open spec fn warning_texts(available: nat, active: nat, capacity: nat) -> Seq<Seq<char>> {
    (if overloaded(active, capacity) {
        seq![overload_warning(active, capacity)]
    } else {
        Seq::empty()
    }) + (if drained(available, capacity) {
        seq!["Pool is empty"@]
    } else {
        Seq::empty()
    })
}

/// A judgement of a pool from its three gauges.
#[derive(Debug, Clone)]
pub struct HealthStatus {
    /// False once utilization is high; an empty shelf alone does not make a
    /// pool unhealthy.
    pub is_healthy: bool,
    /// The number of warnings.
    pub warning_count: usize,
    /// Objects on the shelf.
    pub available_objects: usize,
    /// Objects on lease.
    pub active_objects: usize,
    /// The pool's capacity.
    pub total_capacity: usize,
    /// The warnings, in words.
    pub warnings: Vec<String>,
}

impl HealthStatus {
    /// The share of the capacity that is on lease, in hundredths, rounded to
    /// the nearest; zero for a pool without capacity.
    pub open spec fn utilization(self) -> nat {
        scaled_ratio(self.active_objects as nat, self.total_capacity as nat, 100)
    }

    /// Judges a pool with `available` objects on the shelf, `active` on
    /// lease and room for `capacity`.
    pub fn new(available: usize, active: usize, capacity: usize) -> (status: Self)
        ensures
            status.is_healthy == !overloaded(active as nat, capacity as nat),
            status.warnings.deep_view() == warning_texts(
                available as nat,
                active as nat,
                capacity as nat,
            ),
            status.warning_count == status.warnings@.len(),
            status.available_objects == available,
            status.active_objects == active,
            status.total_capacity == capacity,
    {
        let mut warnings: Vec<String> = Vec::new();
        let mut is_healthy = true;
        let high = capacity > 0 && 10 * (active as u128) > 9 * (capacity as u128);
        if high {
            let mut text = String::from_str("High utilization: ");
            push_one_place(&mut text, ratio_scaled(active, capacity, 1000));
            text.append("%");
            assert(text@ =~= overload_warning(active as nat, capacity as nat));
            warnings.push(text);
            is_healthy = false;
        }
        if available == 0 && capacity > 0 {
            warnings.push(String::from_str("Pool is empty"));
        }
        assert(warnings.deep_view() =~= warning_texts(
            available as nat,
            active as nat,
            capacity as nat,
        ));
        HealthStatus {
            is_healthy,
            warning_count: warnings.len(),
            available_objects: available,
            active_objects: active,
            total_capacity: capacity,
            warnings,
        }
    }

    /// Whether the pool is healthy.
    pub fn is_healthy(&self) -> (healthy: bool)
        ensures
            healthy == self.is_healthy,
    {
        self.is_healthy
    }

    /// The share of the capacity that is on lease, in hundredths.
    pub fn utilization_hundredths(&self) -> (hundredths: u128)
        ensures
            hundredths == self.utilization(),
    {
        ratio_scaled(self.active_objects, self.total_capacity, 100)
    }
}

/// The counters a pool keeps for its health, with a flag that an operator
/// can set.
#[derive(Debug, Clone, Copy)]
pub struct HealthTracker {
    /// Leases handed out so far.
    pub total_retrieved: usize,
    /// Objects taken back so far.
    pub total_returned: usize,
    /// Checkouts that found the shelf empty.
    pub pool_empty_count: usize,
    /// Returned objects that failed validation.
    pub validation_failures: usize,
    /// The operator's flag.
    pub is_healthy: bool,
}

impl HealthTracker {
    /// Counters at zero, flagged healthy.
    pub open spec fn fresh() -> HealthTracker {
        HealthTracker {
            total_retrieved: 0,
            total_returned: 0,
            pool_empty_count: 0,
            validation_failures: 0,
            is_healthy: true,
        }
    }

    /// Counters at zero, flagged healthy.
    pub fn new() -> (tracker: Self)
        ensures
            tracker == HealthTracker::fresh(),
    {
        HealthTracker {
            total_retrieved: 0,
            total_returned: 0,
            pool_empty_count: 0,
            validation_failures: 0,
            is_healthy: true,
        }
    }

    /// Counts a lease handed out.
    pub fn increment_retrieved(&mut self)
        ensures
            *final(self) == (HealthTracker {
                total_retrieved: counted(old(self).total_retrieved as nat) as usize,
                ..*old(self)
            }),
    {
        self.total_retrieved = count_up(self.total_retrieved);
    }

    /// Counts an object taken back.
    pub fn increment_returned(&mut self)
        ensures
            *final(self) == (HealthTracker {
                total_returned: counted(old(self).total_returned as nat) as usize,
                ..*old(self)
            }),
    {
        self.total_returned = count_up(self.total_returned);
    }

    /// Counts a checkout that found the shelf empty.
    pub fn increment_empty(&mut self)
        ensures
            *final(self) == (HealthTracker {
                pool_empty_count: counted(old(self).pool_empty_count as nat) as usize,
                ..*old(self)
            }),
    {
        self.pool_empty_count = count_up(self.pool_empty_count);
    }

    /// Counts a returned object that failed validation.
    pub fn increment_validation_failure(&mut self)
        ensures
            *final(self) == (HealthTracker {
                validation_failures: counted(old(self).validation_failures as nat) as usize,
                ..*old(self)
            }),
    {
        self.validation_failures = count_up(self.validation_failures);
    }

    /// Sets the operator's flag.
    pub fn set_health(&mut self, healthy: bool)
        ensures
            *final(self) == (HealthTracker { is_healthy: healthy, ..*old(self) }),
    {
        self.is_healthy = healthy;
    }
}

impl Default for HealthTracker {
    fn default() -> (tracker: Self)
        ensures
            tracker == HealthTracker::fresh(),
    {
        HealthTracker::new()
    }
}

} // verus!
