//! Exhaustive search over the equipment a character can wear: every
//! combination of the candidate items is generated slot by slot, each
//! combination is measured by a simulator that the caller runs, and the
//! best results are kept in a bounded ranking that also drives the pruning
//! of items that perform badly.

pub mod clock;
pub mod configuration;
pub mod pattern;
pub mod random;
pub mod template;
pub mod text;
pub mod simcraft;

use vstd::prelude::*;

verus! {

/// The version of the program, as it is written into the report.
pub const VERSION: &'static str = "0.3.1";

pub const AUTHOR: &'static str = "[DM]Origin";

/// How many seconds one loadout is taken to need in the simulator.
pub const TIME_PER_ITER: u64 = 15;

} // verus!
