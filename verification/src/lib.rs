//! Exact staging arithmetic for multi-stage rockets.
//!
//! The library models fuels, engines and stages with exact rational numbers,
//! derives the effective flight sequence of a stacked rocket (including
//! booster-separation events and the payload that each stage carries), and
//! states every computation as a contract over mathematical fractions.

use vstd::prelude::*;

pub mod engines;
pub mod fuels;
pub mod rat;
pub mod rocket;
pub mod stages;

verus! {

/// Why a construction or an exact computation was rejected.
#[derive(Clone, Copy, Debug, PartialEq, Eq, Structural)]
pub enum Error {
    /// An exact result no longer fits the fixed-width rational fields.
    Overflow,
    /// A stage was given no engines; its combined specific impulse would be
    /// undefined.
    NoEngines,
    /// A stage was given a dry mass that is not positive.
    NonPositiveDryMass,
    /// An engine or fuel field violates its invariant.
    InvalidEngine,
    /// A boosted stage whose boosters outburn its core has no remaining core
    /// burn after separation.
    BoosterBurnExceedsCore,
}

} // verus!
