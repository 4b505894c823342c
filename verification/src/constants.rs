//! Bounds and fixed parameters of the pool.

use vstd::prelude::*;

verus! {

/// Lowest tick: the tick of the lowest representable price.
pub const MIN_TICK: i32 = -887272;

/// Highest tick: the tick of the highest representable price.
pub const MAX_TICK: i32 = 887272;

/// Fees are expressed in units of 1/10_000.
pub const FEE_DENOMINATOR: u128 = 10000;

/// Maximum number of distinct ranges a single user may hold.
pub const MAX_USER_POSITIONS: u32 = 20;

/// Number of ticks grouped into one storage chunk.
pub const TICKS_PER_CHUNK: i32 = 16;

/// Lowest admissible sqrt price (Q64.96).
pub const MIN_SQRT_RATIO_U128: u128 = 4295128739;

/// High limb of the highest admissible sqrt price (Q64.96), exclusive bound.
pub const MAX_SQRT_RATIO_HI: u128 = 0xfffd8963;

/// Low limb of the highest admissible sqrt price (Q64.96), exclusive bound.
pub const MAX_SQRT_RATIO_LO: u128 = 0xefd1fc6a506488495d951d5263988d26;

} // verus!
