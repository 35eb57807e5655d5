use vstd::prelude::*;

pub mod block;
pub mod chain;
pub mod encoding;
pub mod hashing;
pub mod hexnum;
pub mod merkle;
pub mod policy;

verus! {

/// Protocol version recorded in every block header.
pub const VERSION_INT: u64 = 1;

/// Fixed-point scale: one base-currency unit is 10^8 of these.
pub const INTEGER_SCALE: u64 = 100_000_000;

/// Cap on total emission, in scaled units.
pub const MAX_SUPPLY: u64 = 21_000_000 * INTEGER_SCALE;

/// Block reward before any halving, in scaled units.
pub const REWARD_DEFAULT: u64 = 50 * INTEGER_SCALE;

/// Bootstrap difficulty: required leading zero bits out of 256.
pub const DIFFICULTY_DEFAULT: u64 = 1;

/// Blocks between reward halvings.
pub const REWARD_HALVING_INTERVAL: u64 = 210_000 / 2;

/// Blocks between difficulty retargets.
pub const DIFFICULTY_ADJUSTMENT_INTERVAL: u64 = 1008;

/// Intended seconds between blocks.
pub const TARGET_BLOCK_TIME: u64 = 60 * 5;

/// Intended seconds for one whole adjustment interval.
pub const TARGET_TIMESPAN: u64 = TARGET_BLOCK_TIME * DIFFICULTY_ADJUSTMENT_INTERVAL;

/// Bound on how far one retarget may move the difficulty or the measured timespan.
pub const MAX_ADJUSTMENT_FACTOR: u64 = 2;

} // verus!
