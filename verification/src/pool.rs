//! The concentrated-liquidity pool: its state and the operations that change it.

use vstd::prelude::*;

verus! {

use crate::constants::{FEE_DENOMINATOR, MAX_TICK, MIN_TICK};
use crate::errors::ConcentratedPoolError as Error;
use crate::ticks::TickStore;
use crate::types::{ProtocolFees, Slot0};
use crate::u256::U256;

/// The whole state of a pool: configuration, price, active liquidity, fee accumulators,
/// reserves and the tick storage.
pub struct ConcentratedLiquidityPool {
    /// Swap fee in units of 1 / FEE_DENOMINATOR.
    pub fee: u32,
    pub tick_spacing: i32,
    /// Protocol share of the swap fee in units of 1 / FEE_DENOMINATOR.
    pub protocol_fee_fraction: u32,
    pub slot0: Slot0,
    /// Liquidity of the positions whose range holds the current tick.
    pub liquidity: u128,
    pub fee_growth_global_0_x128: U256,
    pub fee_growth_global_1_x128: U256,
    pub protocol_fees: ProtocolFees,
    pub reserve0: u128,
    pub reserve1: u128,
    pub total_raw_liquidity: u128,
    pub full_range_liquidity: u128,
    pub is_killed_deposit: bool,
    pub is_killed_swap: bool,
    pub ticks: TickStore,
}

impl ConcentratedLiquidityPool {
    /// The pool's standing invariant: a well-formed tick store, fee and protocol share within
    /// the fee denominator, a positive spacing and the current tick within the tick range.
    pub open spec fn wf(&self) -> bool {
        &&& self.ticks.wf()
        &&& self.fee < FEE_DENOMINATOR
        &&& self.protocol_fee_fraction <= FEE_DENOMINATOR
        &&& self.tick_spacing > 0
        &&& MIN_TICK <= self.slot0.tick <= MAX_TICK
    }

    /// |v| as an unsigned number.
    pub fn abs_i128(v: i128) -> (r: u128)
        ensures
            r as int == if v >= 0 { v as int } else { -(v as int) },
    {
        if v >= 0 {
            v as u128
        } else if v == i128::MIN {
            0x8000_0000_0000_0000_0000_0000_0000_0000u128
        } else {
            (-v) as u128
        }
    }

    /// The value as `i128`; `LiquidityOverflow` when it does not fit.
    pub fn u128_to_i128(v: u128) -> (r: Result<i128, Error>)
        ensures
            v <= i128::MAX ==> r == Ok::<i128, Error>(v as i128),
            v > i128::MAX ==> r == Err::<i128, Error>(Error::LiquidityOverflow),
    {
        if v > i128::MAX as u128 {
            return Err(Error::LiquidityOverflow);
        }
        Ok(v as i128)
    }
}

} // verus!
