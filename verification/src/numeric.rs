//! Bounded numbers: percentages (0 to 100) and unit intervals (0 to 1).
//!
//! The values are floating-point; the range checks and arithmetic on them
//! live outside this verified library. This module holds the predicates'
//! identities.

use vstd::prelude::*;

verus! {

/// Predicate for valid percentage values (0 to 100, finite).
#[derive(Debug, Clone, Copy, Default)]
pub struct ValidPercentage;

/// Predicate for valid unit interval values (0 to 1, finite).
#[derive(Debug, Clone, Copy, Default)]
pub struct ValidUnitInterval;

impl ValidPercentage {
    /// What this predicate checks.
    pub fn description() -> (r: &'static str)
        ensures
            r@ == "percentage (0 to 100)"@,
    {
        "percentage (0 to 100)"
    }
}

impl ValidUnitInterval {
    /// What this predicate checks.
    pub fn description() -> (r: &'static str)
        ensures
            r@ == "unit interval (0 to 1)"@,
    {
        "unit interval (0 to 1)"
    }
}

} // verus!
