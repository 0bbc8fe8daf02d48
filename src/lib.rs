//! Deterministic combat math for a fleet-composition simulator.
//!
//! All quantities are fixed-point integers: probabilities are counted in
//! units of 10^-18 (`PROB_ONE` stands for certainty) and power, accuracy and
//! modifier values in thousandths (`UNIT` stands for 1).
use vstd::prelude::*;

pub mod cutin;
pub mod anti_air;
pub mod fleet;
pub mod power;
pub mod asw;
pub mod formation;

verus! {

/// Certainty, in units of 10^-18.
pub const PROB_ONE: u64 = 1000000000000000000;

/// The value 1 of a power, accuracy or modifier quantity, in thousandths.
pub const UNIT: u64 = 1000;

} // verus!
