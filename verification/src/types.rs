//! Records shared by the pool's operations.

use vstd::prelude::*;

verus! {

use crate::u256::U256;

/// Current price state: the Q64.96 sqrt price and the tick it lies in.
#[derive(Clone, Copy, Debug, PartialEq, Eq, Structural)]
pub struct Slot0 {
    pub sqrt_price_x96: U256,
    pub tick: i32,
}

/// State of one liquidity position.
#[derive(Clone, Copy, Debug, PartialEq, Eq, Structural)]
pub struct PositionData {
    pub fee_growth_inside_0_last_x128: U256,
    pub fee_growth_inside_1_last_x128: U256,
    pub liquidity: u128,
    pub tokens_owed_0: u128,
    pub tokens_owed_1: u128,
}

/// State of one tick: fee growth on its far side, gross and net liquidity referencing it.
#[derive(Clone, Copy, Debug, PartialEq, Eq, Structural)]
pub struct TickInfo {
    pub fee_growth_outside_0_x128: U256,
    pub fee_growth_outside_1_x128: U256,
    pub initialized: bool,
    pub liquidity_gross: u128,
    pub liquidity_net: i128,
}

impl TickInfo {
    /// An untouched tick.
    pub fn empty() -> (r: TickInfo)
        ensures
            r.fee_growth_outside_0_x128@ == 0,
            r.fee_growth_outside_1_x128@ == 0,
            !r.initialized,
            r.liquidity_gross == 0,
            r.liquidity_net == 0,
    {
        TickInfo {
            fee_growth_outside_0_x128: U256::zero(),
            fee_growth_outside_1_x128: U256::zero(),
            initialized: false,
            liquidity_gross: 0,
            liquidity_net: 0,
        }
    }
}

/// Signed amounts of a swap (positive: paid by the user) and the final pool state.
#[derive(Clone, Copy, Debug, PartialEq, Eq, Structural)]
pub struct SwapResult {
    pub amount0: i128,
    pub amount1: i128,
    pub liquidity: u128,
    pub sqrt_price_x96: U256,
    pub tick: i32,
}

/// Accumulated protocol share of the swap fees.
#[derive(Clone, Copy, Debug, PartialEq, Eq, Structural)]
pub struct ProtocolFees {
    pub token0: u128,
    pub token1: u128,
}

/// The tick range of a position.
#[derive(Clone, Copy, Debug, PartialEq, Eq, Structural)]
pub struct PositionRange {
    pub tick_lower: i32,
    pub tick_upper: i32,
}

} // verus!
