//! Liquidity positions: range validation, the token amounts of a liquidity amount, fee
//! accounting inside a range, and depositing, withdrawing and collecting.

use vstd::prelude::*;

verus! {

use crate::bitmap::floor_div;
use crate::constants::{MAX_TICK, MAX_USER_POSITIONS, MIN_TICK};
use crate::errors::ConcentratedPoolError as Error;
use crate::errors::{ContractError, LiquidityPoolValidationError as ValidationError};
use crate::math::{
    amount0_delta, amount0_delta_spec, amount1_delta, amount1_delta_spec, liquidity_for_amount0,
    liquidity_for_amount1, mul_div_fee_growth, spec_liquidity_for_amount0, spec_liquidity_for_amount1,
    spec_mul_div_fee_growth, wrapping_sub_u256, sqrt_price_from_amounts, spec_price_ratio_q192,
    spec_min_sqrt_ratio, spec_max_sqrt_ratio,
};
use crate::pool::ConcentratedLiquidityPool;
use crate::tick_math::{sqrt_ratio_at_tick, spec_sqrt_ratio_at_tick, spec_tick_at_sqrt_ratio, tick_at_sqrt_ratio};
use crate::ticks::{spec_updated_tick, tick_at};
use crate::types::{PositionData, PositionRange, ProtocolFees, Slot0, TickInfo};
use crate::ticks::TickStore;
use crate::constants::FEE_DENOMINATOR;
use crate::u256::{b256, U256};

/// The reason a tick range is rejected, if any: order, bounds, spacing.
pub open spec fn spec_check_ticks(tick_lower: int, tick_upper: int, spacing: int) -> Option<Error> {
    if tick_lower >= tick_upper {
        Some(Error::TickLowerNotLessThanUpper)
    } else if tick_lower < MIN_TICK {
        Some(Error::TickLowerTooLow)
    } else if tick_upper > MAX_TICK {
        Some(Error::TickUpperTooHigh)
    } else if spacing <= 0 {
        Some(Error::InvalidTickSpacing)
    } else if tick_lower % spacing != 0 || tick_upper % spacing != 0 {
        Some(Error::TickNotSpacedCorrectly)
    } else {
        None
    }
}

/// Token amounts `(amount0, amount1)` of `liquidity` over [lower, upper] at price `p`:
/// all token0 below the range, all token1 above it, both inside.
pub open spec fn spec_amounts_for_liquidity(p: nat, tick_lower: int, tick_upper: int, liquidity: nat, round_up: bool)
    -> Result<(u128, u128), Error>
{
    if !(MIN_TICK <= tick_lower <= MAX_TICK) || !(MIN_TICK <= tick_upper <= MAX_TICK) {
        Err(Error::TickOutOfBounds)
    } else {
        let sl = spec_sqrt_ratio_at_tick(tick_lower);
        let su = spec_sqrt_ratio_at_tick(tick_upper);
        if p <= sl {
            match amount0_delta_spec(sl, su, liquidity, round_up) {
                Err(e) => Err(e),
                Ok(a0) => Ok((a0, 0u128)),
            }
        } else if p < su {
            match amount0_delta_spec(p, su, liquidity, round_up) {
                Err(e) => Err(e),
                Ok(a0) => Ok((a0, amount1_delta_spec(sl, p, liquidity, round_up))),
            }
        } else {
            Ok((0u128, amount1_delta_spec(sl, su, liquidity, round_up)))
        }
    }
}

/// The largest liquidity over [lower, upper] that `amount0` and `amount1` pay for at price `p`.
pub open spec fn spec_max_liquidity_for_amounts(p: nat, tick_lower: int, tick_upper: int, amount0: nat, amount1: nat)
    -> Result<nat, Error>
{
    if amount0 == 0 && amount1 == 0 {
        Ok(0)
    } else if !(MIN_TICK <= tick_lower <= MAX_TICK) || !(MIN_TICK <= tick_upper <= MAX_TICK) {
        Err(Error::TickOutOfBounds)
    } else {
        let sl = spec_sqrt_ratio_at_tick(tick_lower);
        let su = spec_sqrt_ratio_at_tick(tick_upper);
        if p <= sl {
            spec_liquidity_for_amount0(sl, su, amount0)
        } else if p >= su {
            spec_liquidity_for_amount1(sl, su, amount1)
        } else {
            match spec_liquidity_for_amount0(p, su, amount0) {
                Err(e) => Err(e),
                Ok(l0) => match spec_liquidity_for_amount1(sl, p, amount1) {
                    Err(e) => Err(e),
                    Ok(l1) => Ok(if l0 <= l1 { l0 } else { l1 }),
                },
            }
        }
    }
}

/// `a - b` modulo 2^256 for values below 2^256.
pub open spec fn wsub(a: nat, b: nat) -> nat {
    ((a + b256() - b) % (b256() as int)) as nat
}

/// Fee growth per unit of liquidity inside [lower, upper] for one token, from the global
/// growth and the outside growth of the two boundary ticks.
pub open spec fn spec_growth_inside(global: nat, lower_outside: nat, upper_outside: nat, tick_lower: int, tick_upper: int, current: int) -> nat {
    let below = if current >= tick_lower { lower_outside } else { wsub(global, lower_outside) };
    let above = if current < tick_upper { upper_outside } else { wsub(global, upper_outside) };
    wsub(wsub(global, below), above)
}

/// The fee growth inside [lower, upper] of both tokens in a pool at tick `current`.
pub open spec fn spec_fee_growth_inside(pool: ConcentratedLiquidityPool, tick_lower: int, tick_upper: int, current: int) -> (nat, nat) {
    let m = pool.ticks.ticks@;
    let lo = tick_at(m, floor_div(tick_lower, pool.tick_spacing as int));
    let up = tick_at(m, floor_div(tick_upper, pool.tick_spacing as int));
    (
        spec_growth_inside(pool.fee_growth_global_0_x128@, lo.fee_growth_outside_0_x128@, up.fee_growth_outside_0_x128@,
            tick_lower, tick_upper, current),
        spec_growth_inside(pool.fee_growth_global_1_x128@, lo.fee_growth_outside_1_x128@, up.fee_growth_outside_1_x128@,
            tick_lower, tick_upper, current),
    )
}

/// `a + b` saturating at `u128::MAX`.
pub open spec fn sat_add(a: nat, b: nat) -> nat {
    if a + b > u128::MAX { u128::MAX as nat } else { a + b }
}

/// A position after its fees are brought up to the growth `(inside0, inside1)`: the owed
/// tokens grow by the growth since the last snapshot times the liquidity (saturating), and the
/// snapshot moves to the current growth.
pub open spec fn spec_accrued(position: PositionData, inside0: nat, inside1: nat) -> Result<(nat, nat), Error> {
    let d0 = wsub(inside0, position.fee_growth_inside_0_last_x128@);
    let d1 = wsub(inside1, position.fee_growth_inside_1_last_x128@);
    match spec_mul_div_fee_growth(d0, position.liquidity as nat) {
        Err(e) => Err(e),
        Ok(o0) => match spec_mul_div_fee_growth(d1, position.liquidity as nat) {
            Err(e) => Err(e),
            Ok(o1) => Ok((sat_add(position.tokens_owed_0 as nat, o0), sat_add(position.tokens_owed_1 as nat, o1))),
        },
    }
}

/// Whether `t` is a multiple of the positive `d`.
fn is_multiple_of(t: i32, d: i32) -> (r: bool)
    requires
        d > 0,
    ensures
        r == ((t as int) % (d as int) == 0),
{
    let a: u32 = if t < 0 { if t == i32::MIN { 0x8000_0000u32 } else { (-t) as u32 } } else { t as u32 };
    let r = a % (d as u32) == 0;
    proof {
        let ti = t as int;
        let di = d as int;
        let ai = a as int;
        assert(ai == ti || ai == -ti);
        vstd::arithmetic::div_mod::lemma_fundamental_div_mod(ti, di);
        vstd::arithmetic::div_mod::lemma_fundamental_div_mod(ai, di);
        if ai % di == 0 {
            if ai == -ti {
                assert(ti == di * (-(ai / di))) by (nonlinear_arith) requires ai == di * (ai / di), ai == -ti;
                vstd::arithmetic::div_mod::lemma_mod_multiples_basic(-(ai / di), di);
                assert(di * (-(ai / di)) == (-(ai / di)) * di) by (nonlinear_arith);
            }
        }
        if ti % di == 0 {
            if ai == -ti {
                assert(ai == di * (-(ti / di))) by (nonlinear_arith) requires ti == di * (ti / di), ai == -ti;
                vstd::arithmetic::div_mod::lemma_mod_multiples_basic(-(ti / di), di);
                assert(di * (-(ti / di)) == (-(ti / di)) * di) by (nonlinear_arith);
            }
        }
    }
    r
}

impl ConcentratedLiquidityPool {
    /// Validates a position's tick range against the bounds and the pool's spacing.
    pub fn check_ticks_internal(&self, tick_lower: i32, tick_upper: i32) -> (r: Result<(), Error>)
        ensures
            spec_check_ticks(tick_lower as int, tick_upper as int, self.tick_spacing as int) matches Some(e)
                ==> r == Err::<(), Error>(e),
            spec_check_ticks(tick_lower as int, tick_upper as int, self.tick_spacing as int) is None ==> r is Ok,
    {
        if tick_lower >= tick_upper {
            return Err(Error::TickLowerNotLessThanUpper);
        }
        if tick_lower < MIN_TICK {
            return Err(Error::TickLowerTooLow);
        }
        if tick_upper > MAX_TICK {
            return Err(Error::TickUpperTooHigh);
        }
        let spacing = self.tick_spacing;
        if spacing <= 0 {
            return Err(Error::InvalidTickSpacing);
        }
        if !is_multiple_of(tick_lower, spacing) || !is_multiple_of(tick_upper, spacing) {
            return Err(Error::TickNotSpacedCorrectly);
        }
        Ok(())
    }

    /// The canonical full-range position of the pool: the spacing multiples nearest the tick
    /// bounds; `InvalidTickSpacing` for a non-positive spacing and `TickLowerNotLessThanUpper`
    /// when the spacing exceeds the tick range.
    pub fn full_range_ticks(&self) -> (r: Result<(i32, i32), Error>)
        ensures
            self.tick_spacing <= 0 ==> r == Err::<(i32, i32), Error>(Error::InvalidTickSpacing),
            self.tick_spacing > 0 ==> ({
                let u = 887272int - 887272int % (self.tick_spacing as int);
                &&& u > 0 ==> r == Ok::<(i32, i32), Error>(((-u) as i32, u as i32))
                &&& u <= 0 ==> r == Err::<(i32, i32), Error>(Error::TickLowerNotLessThanUpper)
            }),
    {
        let spacing = self.tick_spacing;
        if spacing <= 0 {
            return Err(Error::InvalidTickSpacing);
        }
        let rem = MAX_TICK % spacing;
        let tick_lower = MIN_TICK + rem;
        let tick_upper = MAX_TICK - rem;
        proof {
            let u = 887272int - 887272int % (spacing as int);
            vstd::arithmetic::div_mod::lemma_fundamental_div_mod(887272int, spacing as int);
            assert(u == spacing as int * (887272int / (spacing as int)));
            assert((-u) == spacing as int * (-(887272int / (spacing as int)))) by (nonlinear_arith)
                requires u == spacing as int * (887272int / (spacing as int));
            vstd::arithmetic::div_mod::lemma_mod_multiples_basic(887272int / (spacing as int), spacing as int);
            vstd::arithmetic::div_mod::lemma_mod_multiples_basic(-(887272int / (spacing as int)), spacing as int);
            assert(spacing as int * (887272int / (spacing as int)) == (887272int / (spacing as int)) * spacing as int) by (nonlinear_arith);
            assert(spacing as int * (-(887272int / (spacing as int))) == (-(887272int / (spacing as int))) * spacing as int) by (nonlinear_arith);
        }
        self.check_ticks_internal(tick_lower, tick_upper)?;
        Ok((tick_lower, tick_upper))
    }

    /// Token amounts of `liquidity` over [lower, upper] at the price of `slot`
    /// (see `spec_amounts_for_liquidity`).
    pub fn amounts_for_liquidity(slot: &Slot0, tick_lower: i32, tick_upper: i32, liquidity: u128, round_up: bool)
        -> (r: Result<(u128, u128), Error>)
        ensures
            r == spec_amounts_for_liquidity(slot.sqrt_price_x96@, tick_lower as int, tick_upper as int, liquidity as nat, round_up),
    {
        let sqrt_lower = sqrt_ratio_at_tick(tick_lower)?;
        let sqrt_upper = sqrt_ratio_at_tick(tick_upper)?;
        if slot.sqrt_price_x96.le(&sqrt_lower) {
            Ok((amount0_delta(&sqrt_lower, &sqrt_upper, liquidity, round_up)?, 0))
        } else if slot.sqrt_price_x96.lt(&sqrt_upper) {
            Ok((
                amount0_delta(&slot.sqrt_price_x96, &sqrt_upper, liquidity, round_up)?,
                amount1_delta(&sqrt_lower, &slot.sqrt_price_x96, liquidity, round_up),
            ))
        } else {
            Ok((0, amount1_delta(&sqrt_lower, &sqrt_upper, liquidity, round_up)))
        }
    }

    /// The largest liquidity over [lower, upper] the amounts pay for at the price of `slot`
    /// (see `spec_max_liquidity_for_amounts`).
    pub fn max_liquidity_for_amounts_at_slot(slot: &Slot0, tick_lower: i32, tick_upper: i32, desired_amount0: u128, desired_amount1: u128)
        -> (r: Result<u128, Error>)
        ensures
            r matches Ok(v) ==> spec_max_liquidity_for_amounts(slot.sqrt_price_x96@, tick_lower as int, tick_upper as int,
                desired_amount0 as nat, desired_amount1 as nat) == Ok::<nat, Error>(v as nat),
            r matches Err(e) ==> spec_max_liquidity_for_amounts(slot.sqrt_price_x96@, tick_lower as int, tick_upper as int,
                desired_amount0 as nat, desired_amount1 as nat) == Err::<nat, Error>(e),
    {
        if desired_amount0 == 0 && desired_amount1 == 0 {
            return Ok(0);
        }
        let sqrt_lower = sqrt_ratio_at_tick(tick_lower)?;
        let sqrt_upper = sqrt_ratio_at_tick(tick_upper)?;
        if slot.sqrt_price_x96.le(&sqrt_lower) {
            liquidity_for_amount0(&sqrt_lower, &sqrt_upper, desired_amount0)
        } else if slot.sqrt_price_x96.ge(&sqrt_upper) {
            liquidity_for_amount1(&sqrt_lower, &sqrt_upper, desired_amount1)
        } else {
            let l0 = liquidity_for_amount0(&slot.sqrt_price_x96, &sqrt_upper, desired_amount0)?;
            let l1 = liquidity_for_amount1(&sqrt_lower, &slot.sqrt_price_x96, desired_amount1)?;
            Ok(if l0 <= l1 { l0 } else { l1 })
        }
    }

    /// The largest liquidity over [lower, upper] the amounts pay for at the pool's price.
    pub fn max_liquidity_for_amounts(&self, tick_lower: i32, tick_upper: i32, desired_amount0: u128, desired_amount1: u128)
        -> (r: Result<u128, Error>)
        ensures
            r matches Ok(v) ==> spec_max_liquidity_for_amounts(self.slot0.sqrt_price_x96@, tick_lower as int, tick_upper as int,
                desired_amount0 as nat, desired_amount1 as nat) == Ok::<nat, Error>(v as nat),
            r matches Err(e) ==> spec_max_liquidity_for_amounts(self.slot0.sqrt_price_x96@, tick_lower as int, tick_upper as int,
                desired_amount0 as nat, desired_amount1 as nat) == Err::<nat, Error>(e),
    {
        Self::max_liquidity_for_amounts_at_slot(&self.slot0, tick_lower, tick_upper, desired_amount0, desired_amount1)
    }

    /// Fee growth inside [lower, upper] of both tokens at tick `tick_current`
    /// (see `spec_fee_growth_inside`).
    pub fn compute_fee_growth_inside(&self, tick_lower: i32, tick_upper: i32, tick_current: i32) -> (r: (U256, U256))
        requires
            self.tick_spacing > 0,
        ensures
            (r.0@, r.1@) == spec_fee_growth_inside(*self, tick_lower as int, tick_upper as int, tick_current as int),
    {
        let g0 = self.fee_growth_global_0_x128;
        let g1 = self.fee_growth_global_1_x128;
        let lower = self.ticks.get_tick(tick_lower, self.tick_spacing);
        let upper = self.ticks.get_tick(tick_upper, self.tick_spacing);
        let below_0 = if tick_current >= tick_lower { lower.fee_growth_outside_0_x128 } else { wrapping_sub_u256(&g0, &lower.fee_growth_outside_0_x128) };
        let below_1 = if tick_current >= tick_lower { lower.fee_growth_outside_1_x128 } else { wrapping_sub_u256(&g1, &lower.fee_growth_outside_1_x128) };
        let above_0 = if tick_current < tick_upper { upper.fee_growth_outside_0_x128 } else { wrapping_sub_u256(&g0, &upper.fee_growth_outside_0_x128) };
        let above_1 = if tick_current < tick_upper { upper.fee_growth_outside_1_x128 } else { wrapping_sub_u256(&g1, &upper.fee_growth_outside_1_x128) };
        (
            wrapping_sub_u256(&wrapping_sub_u256(&g0, &below_0), &above_0),
            wrapping_sub_u256(&wrapping_sub_u256(&g1, &below_1), &above_1),
        )
    }

    /// Brings a position's owed fees up to date at tick `tick_current` (see `spec_accrued`);
    /// `LiquidityOverflow`, with the position unchanged, when an amount does not fit.
    pub fn accrue_position_fees(&self, position: &mut PositionData, tick_lower: i32, tick_upper: i32, tick_current: i32)
        -> (r: Result<(), Error>)
        requires
            self.tick_spacing > 0,
        ensures
            ({
                let (i0, i1) = spec_fee_growth_inside(*self, tick_lower as int, tick_upper as int, tick_current as int);
                match spec_accrued(*old(position), i0, i1) {
                    Err(e) => r == Err::<(), Error>(e) && *final(position) == *old(position),
                    Ok((o0, o1)) => r is Ok
                        && final(position).tokens_owed_0 as nat == o0
                        && final(position).tokens_owed_1 as nat == o1
                        && final(position).fee_growth_inside_0_last_x128@ == i0
                        && final(position).fee_growth_inside_1_last_x128@ == i1
                        && final(position).liquidity == old(position).liquidity,
                }
            }),
    {
        let (inside_0, inside_1) = self.compute_fee_growth_inside(tick_lower, tick_upper, tick_current);
        let delta_0 = wrapping_sub_u256(&inside_0, &position.fee_growth_inside_0_last_x128);
        let delta_1 = wrapping_sub_u256(&inside_1, &position.fee_growth_inside_1_last_x128);
        let owed_0 = mul_div_fee_growth(&delta_0, position.liquidity)?;
        let owed_1 = mul_div_fee_growth(&delta_1, position.liquidity)?;
        position.tokens_owed_0 = position.tokens_owed_0.saturating_add(owed_0);
        position.tokens_owed_1 = position.tokens_owed_1.saturating_add(owed_1);
        position.fee_growth_inside_0_last_x128 = inside_0;
        position.fee_growth_inside_1_last_x128 = inside_1;
        Ok(())
    }

    /// The stored position, or a new empty one whose fee snapshot is the current growth
    /// inside its range.
    pub fn get_or_create_position(&self, existing: Option<PositionData>, tick_lower: i32, tick_upper: i32) -> (r: PositionData)
        requires
            self.tick_spacing > 0,
        ensures
            existing matches Some(p) ==> r == p,
            existing is None ==> ({
                let (i0, i1) = spec_fee_growth_inside(*self, tick_lower as int, tick_upper as int, self.slot0.tick as int);
                &&& r.fee_growth_inside_0_last_x128@ == i0
                &&& r.fee_growth_inside_1_last_x128@ == i1
                &&& r.liquidity == 0 && r.tokens_owed_0 == 0 && r.tokens_owed_1 == 0
            }),
    {
        if let Some(position) = existing {
            return position;
        }
        let (inside_0, inside_1) = self.compute_fee_growth_inside(tick_lower, tick_upper, self.slot0.tick);
        PositionData {
            fee_growth_inside_0_last_x128: inside_0,
            fee_growth_inside_1_last_x128: inside_1,
            liquidity: 0,
            tokens_owed_0: 0,
            tokens_owed_1: 0,
        }
    }
}

/// A user's positions and liquidity totals.
pub struct UserState {
    pub positions: Vec<PositionRange>,
    pub raw_liquidity: u128,
    pub weighted_liquidity: u128,
}

/// Whether a range is not `(lower, upper)`.
pub open spec fn other_range(tick_lower: i32, tick_upper: i32) -> spec_fn(PositionRange) -> bool {
    |r: PositionRange| !(r.tick_lower == tick_lower && r.tick_upper == tick_upper)
}

/// `a - b`, or 0 when `b > a`.
pub open spec fn sat_sub(a: nat, b: nat) -> nat {
    if a >= b { (a - b) as nat } else { 0 }
}

/// A liquidity total after a signed change, saturating at 0 and `u128::MAX`.
pub open spec fn spec_apply_delta(total: nat, delta: int) -> nat {
    if delta >= 0 { sat_add(total, delta as nat) } else { sat_sub(total, (-delta) as nat) }
}

impl ConcentratedLiquidityPool {
    /// Records the range among the user's positions; `TooManyPositions`, with nothing
    /// changed, when it is new and the user already has MAX_USER_POSITIONS ranges.
    pub fn ensure_user_range_exists(state: &mut UserState, tick_lower: i32, tick_upper: i32) -> (r: Result<(), Error>)
        ensures
            ({
                let range = PositionRange { tick_lower, tick_upper };
                &&& old(state).positions@.contains(range) ==> r is Ok && *final(state) == *old(state)
                &&& !old(state).positions@.contains(range) && old(state).positions@.len() >= MAX_USER_POSITIONS
                    ==> r == Err::<(), Error>(Error::TooManyPositions) && *final(state) == *old(state)
                &&& !old(state).positions@.contains(range) && old(state).positions@.len() < MAX_USER_POSITIONS
                    ==> r is Ok && final(state).positions@ == old(state).positions@.push(range)
                        && final(state).raw_liquidity == old(state).raw_liquidity
                        && final(state).weighted_liquidity == old(state).weighted_liquidity
            }),
    {
        let ghost range = PositionRange { tick_lower, tick_upper };
        let mut i: usize = 0;
        while i < state.positions.len()
            invariant
                0 <= i <= state.positions@.len(),
                *state == *old(state),
                range == (PositionRange { tick_lower, tick_upper }),
                forall|j: int| 0 <= j < i ==> state.positions@[j] != range,
            decreases state.positions@.len() - i,
        {
            let r = state.positions[i];
            if r.tick_lower == tick_lower && r.tick_upper == tick_upper {
                proof {
                    assert(state.positions@[i as int] == range);
                }
                return Ok(());
            }
            i = i + 1;
        }
        if state.positions.len() >= MAX_USER_POSITIONS as usize {
            return Err(Error::TooManyPositions);
        }
        state.positions.push(PositionRange { tick_lower, tick_upper });
        Ok(())
    }

    /// Drops the range from the user's positions, keeping the order of the others.
    pub fn remove_user_range_if_empty(state: &mut UserState, tick_lower: i32, tick_upper: i32)
        ensures
            final(state).positions@ == old(state).positions@.filter(other_range(tick_lower, tick_upper)),
            final(state).raw_liquidity == old(state).raw_liquidity,
            final(state).weighted_liquidity == old(state).weighted_liquidity,
    {
        let mut updated: Vec<PositionRange> = Vec::new();
        let mut i: usize = 0;
        let ghost pred = other_range(tick_lower, tick_upper);
        while i < state.positions.len()
            invariant
                0 <= i <= state.positions@.len(),
                *state == *old(state),
                pred == other_range(tick_lower, tick_upper),
                updated@ == state.positions@.take(i as int).filter(pred),
            decreases state.positions@.len() - i,
        {
            let r = state.positions[i];
            proof {
                assert(state.positions@.take(i as int + 1) == state.positions@.take(i as int).push(r));
                state.positions@.take(i as int).lemma_filter_push(r, pred);
            }
            if !(r.tick_lower == tick_lower && r.tick_upper == tick_upper) {
                updated.push(r);
            }
            i = i + 1;
        }
        proof {
            assert(state.positions@.take(state.positions@.len() as int) == state.positions@);
        }
        state.positions = updated;
    }

    /// Adds a signed change of raw liquidity to the user and to the pool total, saturating.
    pub fn update_user_raw_liquidity(&mut self, state: &mut UserState, delta: i128)
        ensures
            final(state).raw_liquidity as nat == spec_apply_delta(old(state).raw_liquidity as nat, delta as int),
            final(self).total_raw_liquidity as nat == spec_apply_delta(old(self).total_raw_liquidity as nat, delta as int),
            final(state).positions == old(state).positions,
            final(state).weighted_liquidity == old(state).weighted_liquidity,
            *final(self) == (ConcentratedLiquidityPool { total_raw_liquidity: final(self).total_raw_liquidity, ..*old(self) }),
    {
        let amount = Self::abs_i128(delta);
        if delta >= 0 {
            state.raw_liquidity = state.raw_liquidity.saturating_add(amount);
            self.total_raw_liquidity = self.total_raw_liquidity.saturating_add(amount);
        } else {
            state.raw_liquidity = state.raw_liquidity.saturating_sub(amount);
            self.total_raw_liquidity = self.total_raw_liquidity.saturating_sub(amount);
        }
    }

    /// The starting price of an empty pool from the ratio of the first deposit's amounts:
    /// the floor square root of `amount1 / amount0` in Q64.96, and its tick, which must lie in
    /// [tick_lower, tick_upper) (`TickOutOfBounds` otherwise).
    pub fn init_sqrt_price_for_range(tick_lower: i32, tick_upper: i32, amount0: u128, amount1: u128)
        -> (r: Result<(U256, i32), Error>)
        ensures
            r matches Ok((s, t)) ==> amount0 > 0 && amount1 > 0
                && s@ * s@ <= spec_price_ratio_q192(amount0 as nat, amount1 as nat)
                && spec_price_ratio_q192(amount0 as nat, amount1 as nat) < (s@ + 1) * (s@ + 1)
                && t as int == spec_tick_at_sqrt_ratio(s@)
                && MIN_TICK <= t < MAX_TICK
                && tick_lower <= t < tick_upper
                && spec_min_sqrt_ratio() <= s@ < spec_max_sqrt_ratio(),
            (amount0 == 0 || amount1 == 0) ==> r == Err::<(U256, i32), Error>(Error::InvalidAmount),
            (amount0 > 0 && amount1 > 0) ==> ({
                let ratio = spec_price_ratio_q192(amount0 as nat, amount1 as nat);
                let p = spec_floor_sqrt(ratio);
                let in_range = ratio < b256()
                    && spec_min_sqrt_ratio() * spec_min_sqrt_ratio() <= ratio
                    && ratio < spec_max_sqrt_ratio() * spec_max_sqrt_ratio();
                &&& !in_range ==> r == Err::<(U256, i32), Error>(Error::PriceOutOfBounds)
                &&& in_range && !(tick_lower <= spec_tick_at_sqrt_ratio(p) < tick_upper)
                    ==> r == Err::<(U256, i32), Error>(Error::TickOutOfBounds)
                &&& in_range && tick_lower <= spec_tick_at_sqrt_ratio(p) < tick_upper ==> r is Ok
            }),
    {
        let sqrt_price = sqrt_price_from_amounts(amount0, amount1)?;
        proof {
            let ratio = spec_price_ratio_q192(amount0 as nat, amount1 as nat);
            let sp = sqrt_price@;
            let a = spec_min_sqrt_ratio();
            let b = spec_max_sqrt_ratio();
            lemma_floor_sqrt_unique(ratio, sp);
            if a * a <= ratio && ratio < b * b {
                if sp < a {
                    assert((sp + 1) * (sp + 1) <= a * a) by (nonlinear_arith) requires sp + 1 <= a;
                }
                if sp >= b {
                    assert(b * b <= sp * sp) by (nonlinear_arith) requires b <= sp;
                }
            }
        }
        let tick = tick_at_sqrt_ratio(&sqrt_price)?;
        if tick < tick_lower || tick >= tick_upper {
            return Err(Error::TickOutOfBounds);
        }
        Ok((sqrt_price, tick))
    }

    /// The tick of the price given by the ratio `amount1 / amount0`: the tick of its floor
    /// square root in Q64.96; `InvalidAmount` when either amount is zero, `PriceOutOfBounds`
    /// when the price lies outside the admissible range.
    pub fn tick_from_amounts(amount0: u128, amount1: u128) -> (r: Result<i32, Error>)
        ensures
            (amount0 == 0 || amount1 == 0) ==> r == Err::<i32, Error>(Error::InvalidAmount),
            (amount0 > 0 && amount1 > 0) ==> ({
                let ratio = spec_price_ratio_q192(amount0 as nat, amount1 as nat);
                let in_range = ratio < b256()
                    && spec_min_sqrt_ratio() * spec_min_sqrt_ratio() <= ratio
                    && ratio < spec_max_sqrt_ratio() * spec_max_sqrt_ratio();
                &&& in_range ==> (r matches Ok(t) && t as int == spec_tick_at_sqrt_ratio(spec_floor_sqrt(ratio)))
                &&& !in_range ==> r == Err::<i32, Error>(Error::PriceOutOfBounds)
            }),
    {
        let sqrt_price = sqrt_price_from_amounts(amount0, amount1)?;
        proof {
            let ratio = spec_price_ratio_q192(amount0 as nat, amount1 as nat);
            let p = sqrt_price@;
            let lo = spec_min_sqrt_ratio();
            let hi = spec_max_sqrt_ratio();
            lemma_floor_sqrt_unique(ratio, p);
            if p < lo {
                assert((p + 1) * (p + 1) <= lo * lo) by (nonlinear_arith) requires p + 1 <= lo;
            }
            if p >= hi {
                assert(hi * hi <= p * p) by (nonlinear_arith) requires hi <= p;
            }
        }
        tick_at_sqrt_ratio(&sqrt_price)
    }
}

/// The checks a deposit makes before touching the pool, in order: kill switch, input size,
/// a nonzero amount, the tick range; an empty pool also needs both tokens.
pub open spec fn spec_deposit_precheck(pool: ConcentratedLiquidityPool, tick_lower: int, tick_upper: int, desired: Seq<u128>)
    -> Option<ContractError>
{
    if pool.is_killed_deposit {
        Some(ContractError::Pool(Error::DepositKilled))
    } else if desired.len() != 2 {
        Some(ContractError::Validation(ValidationError::WrongInputVecSize))
    } else if desired[0] == 0 && desired[1] == 0 {
        Some(ContractError::Validation(ValidationError::ZeroAmount))
    } else if spec_check_ticks(tick_lower, tick_upper, pool.tick_spacing as int) is Some {
        Some(ContractError::Pool(spec_check_ticks(tick_lower, tick_upper, pool.tick_spacing as int)->Some_0))
    } else {
        None
    }
}

/// The tick records after both boundaries of a position change by `delta`.
pub open spec fn spec_boundaries_updated(
    before: Map<i32, TickInfo>,
    after: Map<i32, TickInfo>,
    spacing: int,
    tick_lower: int,
    tick_upper: int,
    delta: int,
    current: int,
    fg0: U256,
    fg1: U256,
) -> bool {
    let cl = floor_div(tick_lower, spacing);
    let cu = floor_div(tick_upper, spacing);
    &&& tick_at(after, cl) == spec_updated_tick(tick_at(before, cl), delta, false, tick_lower <= current, fg0, fg1)
    &&& tick_at(after, cu) == spec_updated_tick(tick_at(before, cu), delta, true, tick_upper <= current, fg0, fg1)
    &&& forall|c: int| c != cl && c != cu ==> #[trigger] tick_at(after, c) == tick_at(before, c)
}

impl ConcentratedLiquidityPool {
    /// Adds liquidity to [tick_lower, tick_upper): the largest liquidity the desired amounts pay
    /// for at the current price (an empty pool first takes its price from the amounts' ratio),
    /// charged rounding up. Returns the amounts charged, the liquidity and the position after
    /// the deposit (`existing` is the stored position, if any). On an error the caller
    /// discards the pool and the user state.
    #[verifier::rlimit(100)]
    #[verifier::spinoff_prover]
    pub fn deposit_position(
        &mut self,
        existing: Option<PositionData>,
        user: &mut UserState,
        tick_lower: i32,
        tick_upper: i32,
        desired_amounts: &Vec<u128>,
        min_liquidity: u128,
    ) -> (r: Result<(u128, u128, u128, PositionData), ContractError>)
        requires
            old(self).wf(),
        ensures
            spec_deposit_precheck(*old(self), tick_lower as int, tick_upper as int, desired_amounts@) matches Some(e)
                ==> r == Err::<(u128, u128, u128, PositionData), ContractError>(e),
            spec_deposit_precheck(*old(self), tick_lower as int, tick_upper as int, desired_amounts@) is None
                && old(self).total_raw_liquidity == 0 && (desired_amounts@[0] == 0 || desired_amounts@[1] == 0)
                ==> r == Err::<(u128, u128, u128, PositionData), ContractError>(ContractError::Validation(ValidationError::AllCoinsRequired)),
            !old(self).is_killed_deposit ==> (spec_deposit_liquidity(*old(self), tick_lower as int, tick_upper as int, desired_amounts@)
                matches Err(e) ==> r == Err::<(u128, u128, u128, PositionData), ContractError>(e)),
            !old(self).is_killed_deposit ==> (spec_deposit_liquidity(*old(self), tick_lower as int, tick_upper as int, desired_amounts@)
                matches Ok((_, l)) && l < min_liquidity ==> r == Err::<(u128, u128, u128, PositionData), ContractError>(
                    ContractError::Validation(ValidationError::OutMinNotSatisfied))),
            !old(self).is_killed_deposit ==> (spec_deposit_liquidity(*old(self), tick_lower as int, tick_upper as int, desired_amounts@)
                matches Ok((_, l)) && l >= min_liquidity ==> (spec_deposit_quote(*old(self), tick_lower as int, tick_upper as int,
                    desired_amounts@) matches Err(e) ==> r == Err::<(u128, u128, u128, PositionData), ContractError>(e))),
            r matches Ok((a0, a1, l, _)) ==> spec_deposit_quote(*old(self), tick_lower as int, tick_upper as int, desired_amounts@)
                == Ok::<(u128, u128, u128), ContractError>((a0, a1, l)),
            !old(self).is_killed_deposit && l_meets_min(spec_deposit_liquidity(*old(self), tick_lower as int, tick_upper as int,
                desired_amounts@), min_liquidity) ==> (spec_deposit_quote(*old(self), tick_lower as int, tick_upper as int,
                desired_amounts@) matches Ok(q) ==> (spec_deposit_settle_error(*old(self), q, desired_amounts@) matches Some(e)
                ==> r == Err::<(u128, u128, u128, PositionData), ContractError>(e))),
            !old(self).is_killed_deposit && l_meets_min(spec_deposit_liquidity(*old(self), tick_lower as int, tick_upper as int,
                desired_amounts@), min_liquidity) ==> (spec_deposit_quote(*old(self), tick_lower as int, tick_upper as int,
                desired_amounts@) matches Ok(q) ==> (spec_deposit_settle_error(*old(self), q, desired_amounts@) is None
                ==> (spec_deposit_accrual_error(*old(self), existing, tick_lower as int, tick_upper as int, desired_amounts@, q.2 as int)
                    matches Some(e) ==> r == Err::<(u128, u128, u128, PositionData), ContractError>(ContractError::Pool(e))))),
            !old(self).is_killed_deposit && l_meets_min(spec_deposit_liquidity(*old(self), tick_lower as int, tick_upper as int,
                desired_amounts@), min_liquidity) ==> (spec_deposit_quote(*old(self), tick_lower as int, tick_upper as int,
                desired_amounts@) matches Ok(q) ==> (spec_deposit_settle_error(*old(self), q, desired_amounts@) is None
                && spec_deposit_accrual_error(*old(self), existing, tick_lower as int, tick_upper as int, desired_amounts@, q.2 as int) is None
                && (old(user).positions@.contains(PositionRange { tick_lower, tick_upper })
                    || old(user).positions@.len() < MAX_USER_POSITIONS)
                && (tick_lower == -(887272int - 887272int % (old(self).tick_spacing as int))
                    && tick_upper == 887272int - 887272int % (old(self).tick_spacing as int)
                    ==> old(self).full_range_liquidity + q.2 <= u128::MAX)
                ==> r is Ok)),
            !old(self).is_killed_deposit && l_meets_min(spec_deposit_liquidity(*old(self), tick_lower as int, tick_upper as int,
                desired_amounts@), min_liquidity) ==> (spec_deposit_quote(*old(self), tick_lower as int, tick_upper as int,
                desired_amounts@) matches Ok(q) ==> (spec_deposit_settle_error(*old(self), q, desired_amounts@) is None
                && spec_deposit_accrual_error(*old(self), existing, tick_lower as int, tick_upper as int, desired_amounts@, q.2 as int) is None
                && !old(user).positions@.contains(PositionRange { tick_lower, tick_upper })
                && old(user).positions@.len() >= MAX_USER_POSITIONS
                ==> r == Err::<(u128, u128, u128, PositionData), ContractError>(ContractError::Pool(Error::TooManyPositions)))),
            !old(self).is_killed_deposit && l_meets_min(spec_deposit_liquidity(*old(self), tick_lower as int, tick_upper as int,
                desired_amounts@), min_liquidity) ==> (spec_deposit_quote(*old(self), tick_lower as int, tick_upper as int,
                desired_amounts@) matches Ok(q) ==> (spec_deposit_settle_error(*old(self), q, desired_amounts@) is None
                && spec_deposit_accrual_error(*old(self), existing, tick_lower as int, tick_upper as int, desired_amounts@, q.2 as int) is None
                && (old(user).positions@.contains(PositionRange { tick_lower, tick_upper })
                    || old(user).positions@.len() < MAX_USER_POSITIONS)
                && tick_lower == -(887272int - 887272int % (old(self).tick_spacing as int))
                && tick_upper == 887272int - 887272int % (old(self).tick_spacing as int)
                && old(self).full_range_liquidity + q.2 > u128::MAX
                ==> r == Err::<(u128, u128, u128, PositionData), ContractError>(ContractError::Pool(Error::LiquidityOverflow)))),
            r matches Ok((a0, a1, l, pos)) ==> {
                let p = final(self).slot0.sqrt_price_x96@;
                let cur = final(self).slot0.tick as int;
                let u = 887272int - 887272int % (old(self).tick_spacing as int);
                &&& spec_deposit_precheck(*old(self), tick_lower as int, tick_upper as int, desired_amounts@) is None
                &&& p == spec_deposit_price(*old(self), desired_amounts@)
                &&& old(self).total_raw_liquidity != 0 ==> final(self).slot0 == old(self).slot0
                &&& old(self).total_raw_liquidity == 0 ==> {
                    let ratio = spec_price_ratio_q192(desired_amounts@[0] as nat, desired_amounts@[1] as nat);
                    &&& p * p <= ratio < (p + 1) * (p + 1)
                    &&& cur == spec_tick_at_sqrt_ratio(p)
                    &&& tick_lower <= cur < tick_upper
                }
                &&& spec_max_liquidity_for_amounts(p, tick_lower as int, tick_upper as int,
                    desired_amounts@[0] as nat, desired_amounts@[1] as nat) == Ok::<nat, Error>(l as nat)
                &&& 0 < l <= i128::MAX && l >= min_liquidity
                &&& spec_amounts_for_liquidity(p, tick_lower as int, tick_upper as int, l as nat, true) == Ok::<(u128, u128), Error>((a0, a1))
                &&& a0 <= desired_amounts@[0] && a1 <= desired_amounts@[1]
                &&& final(self).reserve0 == old(self).reserve0 + a0
                &&& final(self).reserve1 == old(self).reserve1 + a1
                &&& pos.liquidity as nat == sat_add(match existing { Some(e) => e.liquidity as nat, None => 0 }, l as nat)
                &&& final(self).liquidity as nat == if tick_lower <= cur < tick_upper {
                        sat_add(old(self).liquidity as nat, l as nat) } else { old(self).liquidity as nat }
                &&& final(self).total_raw_liquidity as nat == sat_add(old(self).total_raw_liquidity as nat, l as nat)
                &&& final(self).full_range_liquidity as int == if tick_lower == -u && tick_upper == u {
                        old(self).full_range_liquidity + l } else { old(self).full_range_liquidity as int }
                &&& final(user).raw_liquidity as nat == sat_add(old(user).raw_liquidity as nat, l as nat)
                &&& final(user).positions@.contains(PositionRange { tick_lower, tick_upper })
                &&& spec_boundaries_updated(old(self).ticks.ticks@, final(self).ticks.ticks@, old(self).tick_spacing as int,
                    tick_lower as int, tick_upper as int, l as int, cur, old(self).fee_growth_global_0_x128, old(self).fee_growth_global_1_x128)
                &&& final(self).wf()
                &&& final(self).fee_growth_global_0_x128 == old(self).fee_growth_global_0_x128
                &&& final(self).fee_growth_global_1_x128 == old(self).fee_growth_global_1_x128
                &&& final(self).protocol_fees == old(self).protocol_fees
                &&& final(self).fee == old(self).fee
                &&& final(self).tick_spacing == old(self).tick_spacing
            },
    {
        if self.is_killed_deposit {
            return Err(ContractError::Pool(Error::DepositKilled));
        }
        if desired_amounts.len() != 2 {
            return Err(ContractError::Validation(ValidationError::WrongInputVecSize));
        }
        let desired_amount0 = desired_amounts[0];
        let desired_amount1 = desired_amounts[1];
        if desired_amount0 == 0 && desired_amount1 == 0 {
            return Err(ContractError::Validation(ValidationError::ZeroAmount));
        }
        if let Err(e) = self.check_ticks_internal(tick_lower, tick_upper) {
            return Err(ContractError::Pool(e));
        }
        proof {
            lemma_distinct_boundaries(tick_lower as int, tick_upper as int, self.tick_spacing as int);
        }
        let is_full_range = match self.full_range_ticks() {
            Ok((full_lower, full_upper)) => tick_lower == full_lower && tick_upper == full_upper,
            Err(e) => {
                return Err(ContractError::Pool(e));
            },
        };
        if self.total_raw_liquidity == 0 {
            if desired_amount0 > 0 && desired_amount1 > 0 {
                match Self::init_sqrt_price_for_range(tick_lower, tick_upper, desired_amount0, desired_amount1) {
                    Ok((sqrt_price_x96, tick)) => {
                        proof {
                            lemma_floor_sqrt_unique(spec_price_ratio_q192(desired_amount0 as nat, desired_amount1 as nat), sqrt_price_x96@);
                        }
                        self.slot0 = Slot0 { sqrt_price_x96, tick };
                    },
                    Err(e) => {
                        return Err(ContractError::Pool(e));
                    },
                }
            } else {
                return Err(ContractError::Validation(ValidationError::AllCoinsRequired));
            }
        }
        let liquidity = match self.max_liquidity_for_amounts(tick_lower, tick_upper, desired_amount0, desired_amount1) {
            Ok(v) => v,
            Err(e) => {
                return Err(ContractError::Pool(e));
            },
        };
        if liquidity == 0 {
            return Err(ContractError::Validation(ValidationError::ZeroAmount));
        }
        if liquidity > i128::MAX as u128 {
            return Err(ContractError::Pool(Error::LiquidityAmountTooLarge));
        }
        if liquidity < min_liquidity {
            return Err(ContractError::Validation(ValidationError::OutMinNotSatisfied));
        }
        let slot = self.slot0;
        let (amount0, amount1) = match Self::amounts_for_liquidity(&slot, tick_lower, tick_upper, liquidity, true) {
            Ok(v) => v,
            Err(e) => {
                return Err(ContractError::Pool(e));
            },
        };
        if amount0 > desired_amount0 || amount1 > desired_amount1 {
            return Err(ContractError::Pool(Error::LiquidityUnderflow));
        }
        let reserve0 = match self.reserve0.checked_add(amount0) {
            Some(v) => v,
            None => {
                return Err(ContractError::Pool(Error::LiquidityOverflow));
            },
        };
        let reserve1 = match self.reserve1.checked_add(amount1) {
            Some(v) => v,
            None => {
                return Err(ContractError::Pool(Error::LiquidityOverflow));
            },
        };
        self.reserve0 = reserve0;
        self.reserve1 = reserve1;
        let spacing = self.tick_spacing;
        let fg0 = self.fee_growth_global_0_x128;
        let fg1 = self.fee_growth_global_1_x128;
        let ghost t_before = self.ticks.ticks@;
        if let Err(e) = self.ticks.update_tick_liquidity(tick_lower, spacing, liquidity as i128, false, slot.tick, &fg0, &fg1) {
            return Err(ContractError::Pool(e));
        }
        let ghost t_mid = self.ticks.ticks@;
        if let Err(e) = self.ticks.update_tick_liquidity(tick_upper, spacing, liquidity as i128, true, slot.tick, &fg0, &fg1) {
            return Err(ContractError::Pool(e));
        }
        proof {
            lemma_distinct_boundaries(tick_lower as int, tick_upper as int, spacing as int);
            lemma_boundaries(t_before, t_mid, self.ticks.ticks@, spacing as int, tick_lower as int, tick_upper as int,
                liquidity as int, slot.tick as int, fg0, fg1);
        }
        let mut position = self.get_or_create_position(existing, tick_lower, tick_upper);
        if let Err(e) = self.accrue_position_fees(&mut position, tick_lower, tick_upper, slot.tick) {
            return Err(ContractError::Pool(e));
        }
        position.liquidity = position.liquidity.saturating_add(liquidity);
        let ghost pre_user = user.positions@;
        if let Err(e) = Self::ensure_user_range_exists(user, tick_lower, tick_upper) {
            return Err(ContractError::Pool(e));
        }
        proof {
            let range = PositionRange { tick_lower, tick_upper };
            if !pre_user.contains(range) {
                assert(user.positions@[user.positions@.len() - 1] == range);
            }
            assert(user.positions@.contains(range));
        }
        if slot.tick >= tick_lower && slot.tick < tick_upper {
            self.liquidity = self.liquidity.saturating_add(liquidity);
        }
        if is_full_range {
            self.full_range_liquidity = match self.full_range_liquidity.checked_add(liquidity) {
                Some(v) => v,
                None => {
                    return Err(ContractError::Pool(Error::LiquidityOverflow));
                },
            };
        }
        self.update_user_raw_liquidity(user, liquidity as i128);
        Ok((amount0, amount1, liquidity, position))
    }
}

/// The current tick a deposit works at: an empty pool's from the deposit's price, otherwise
/// the pool's.
pub open spec fn spec_deposit_tick(pool: ConcentratedLiquidityPool, desired: Seq<u128>) -> int {
    if pool.total_raw_liquidity == 0 {
        spec_tick_at_sqrt_ratio(spec_deposit_price(pool, desired))
    } else {
        pool.slot0.tick as int
    }
}

/// The fee growth inside [tick_lower, tick_upper) once both boundaries took `l` more
/// liquidity with the current tick at `cur`.
pub open spec fn spec_deposit_inside(pool: ConcentratedLiquidityPool, tick_lower: int, tick_upper: int, l: int, cur: int) -> (nat, nat) {
    let sp = pool.tick_spacing as int;
    let m = pool.ticks.ticks@;
    let fg0 = pool.fee_growth_global_0_x128;
    let fg1 = pool.fee_growth_global_1_x128;
    let lo = spec_updated_tick(tick_at(m, floor_div(tick_lower, sp)), l, false, tick_lower <= cur, fg0, fg1);
    let up = spec_updated_tick(tick_at(m, floor_div(tick_upper, sp)), l, true, tick_upper <= cur, fg0, fg1);
    (
        spec_growth_inside(fg0@, lo.fee_growth_outside_0_x128@, up.fee_growth_outside_0_x128@, tick_lower, tick_upper, cur),
        spec_growth_inside(fg1@, lo.fee_growth_outside_1_x128@, up.fee_growth_outside_1_x128@, tick_lower, tick_upper, cur),
    )
}

/// Why bringing the fees of the stored position `existing` up to date fails when a deposit of
/// liquidity `l` joins it; a new position has nothing to bring up to date.
pub open spec fn spec_deposit_accrual_error(pool: ConcentratedLiquidityPool, existing: Option<PositionData>, tick_lower: int,
    tick_upper: int, desired: Seq<u128>, l: int) -> Option<Error> {
    match existing {
        None => None,
        Some(p) => {
            let (i0, i1) = spec_deposit_inside(pool, tick_lower, tick_upper, l, spec_deposit_tick(pool, desired));
            match spec_accrued(p, i0, i1) {
                Err(e) => Some(e),
                Ok(_) => None,
            }
        },
    }
}

/// Whether a deposit's liquidity was computed and meets the caller's minimum.
pub open spec fn l_meets_min(liq: Result<(nat, nat), ContractError>, min_liquidity: u128) -> bool {
    liq matches Ok((_, l)) && l >= min_liquidity
}

/// The checks a deposit makes on its quote `(amount0, amount1, liquidity)` before it books it,
/// in order: the amounts must be within what the caller offered and the reserves must not
/// overflow.
pub open spec fn spec_deposit_settle_error(pool: ConcentratedLiquidityPool, quote: (u128, u128, u128), desired: Seq<u128>)
    -> Option<ContractError>
{
    if quote.0 > desired[0] || quote.1 > desired[1] {
        Some(ContractError::Pool(Error::LiquidityUnderflow))
    } else if pool.reserve0 + quote.0 > u128::MAX || pool.reserve1 + quote.1 > u128::MAX {
        Some(ContractError::Pool(Error::LiquidityOverflow))
    } else {
        None
    }
}

/// The checks a withdrawal makes before touching the pool, in order.
pub open spec fn spec_withdraw_precheck(pool: ConcentratedLiquidityPool, existing: Option<PositionData>, tick_lower: int, tick_upper: int,
    amount: u128, min_amounts: Seq<u128>) -> Option<ContractError>
{
    if amount == 0 {
        Some(ContractError::Validation(ValidationError::ZeroAmount))
    } else if amount > i128::MAX {
        Some(ContractError::Pool(Error::LiquidityAmountTooLarge))
    } else if min_amounts.len() != 2 {
        Some(ContractError::Validation(ValidationError::WrongInputVecSize))
    } else if spec_check_ticks(tick_lower, tick_upper, pool.tick_spacing as int) is Some {
        Some(ContractError::Pool(spec_check_ticks(tick_lower, tick_upper, pool.tick_spacing as int)->Some_0))
    } else if existing is None {
        Some(ContractError::Pool(Error::PositionNotFound))
    } else {
        None
    }
}

/// What withdrawing `amount` of a position's liquidity pays in total: its principal at the
/// pool's price rounded down plus all fees owed once brought up to date; `InvalidAmount` when
/// a total does not fit in `u128`.
pub open spec fn spec_withdraw_totals(pool: ConcentratedLiquidityPool, pos: PositionData, tick_lower: int, tick_upper: int,
    amount: u128) -> Result<(nat, nat), Error>
{
    let (i0, i1) = spec_fee_growth_inside(pool, tick_lower, tick_upper, pool.slot0.tick as int);
    match spec_accrued(pos, i0, i1) {
        Err(e) => Err(e),
        Ok((o0, o1)) => match spec_amounts_for_liquidity(pool.slot0.sqrt_price_x96@, tick_lower, tick_upper, amount as nat, false) {
            Err(e) => Err(e),
            Ok((a0, a1)) => if a0 + o0 > u128::MAX || a1 + o1 > u128::MAX {
                Err(Error::InvalidAmount)
            } else {
                Ok(((a0 + o0) as nat, (a1 + o1) as nat))
            },
        },
    }
}

/// Whether taking `amount` of liquidity off [tick_lower, tick_upper) would take more than a
/// boundary tick holds, more than the active liquidity when the range holds the current tick,
/// or more than the full-range liquidity when the range is the full range.
pub open spec fn spec_withdraw_underflows(pool: ConcentratedLiquidityPool, tick_lower: int, tick_upper: int, amount: nat) -> bool {
    let spacing = pool.tick_spacing as int;
    let u = 887272int - 887272int % spacing;
    let cur = pool.slot0.tick as int;
    ||| tick_at(pool.ticks.ticks@, floor_div(tick_lower, spacing)).liquidity_gross < amount
    ||| tick_at(pool.ticks.ticks@, floor_div(tick_upper, spacing)).liquidity_gross < amount
    ||| (tick_lower <= cur < tick_upper && pool.liquidity < amount)
    ||| (tick_lower == -u && tick_upper == u && pool.full_range_liquidity < amount)
}

/// What a withdrawal of `amount` from the stored position `existing` pays out, without
/// changing the pool: the checks of the input and the position, then the totals of
/// `spec_withdraw_totals`, which the reserves must cover.
pub open spec fn spec_withdraw_quote(pool: ConcentratedLiquidityPool, existing: Option<PositionData>, tick_lower: int,
    tick_upper: int, amount: u128) -> Result<(u128, u128), ContractError>
{
    if amount == 0 {
        Err(ContractError::Validation(ValidationError::ZeroAmount))
    } else if amount > i128::MAX {
        Err(ContractError::Pool(Error::LiquidityAmountTooLarge))
    } else if spec_check_ticks(tick_lower, tick_upper, pool.tick_spacing as int) is Some {
        Err(ContractError::Pool(spec_check_ticks(tick_lower, tick_upper, pool.tick_spacing as int)->Some_0))
    } else if existing is None {
        Err(ContractError::Pool(Error::PositionNotFound))
    } else if existing->Some_0.liquidity < amount {
        Err(ContractError::Pool(Error::InsufficientLiquidity))
    } else {
        match spec_withdraw_totals(pool, existing->Some_0, tick_lower, tick_upper, amount) {
            Err(e) => Err(ContractError::Pool(e)),
            Ok((t0, t1)) => if t0 > pool.reserve0 || t1 > pool.reserve1 {
                Err(ContractError::Validation(ValidationError::InsufficientBalance))
            } else {
                Ok((t0 as u128, t1 as u128))
            },
        }
    }
}

impl ConcentratedLiquidityPool {
    /// Removes `amount` of liquidity from a position and pays out the principal (rounded down)
    /// together with all fees owed to the position. Returns the totals paid and the position
    /// left (`None` when it is emptied and removed). On an error the caller discards the pool
    /// and the user state.
    #[verifier::rlimit(80)]
    pub fn withdraw_position(
        &mut self,
        existing: Option<PositionData>,
        user: &mut UserState,
        tick_lower: i32,
        tick_upper: i32,
        amount: u128,
        min_amounts: &Vec<u128>,
    ) -> (r: Result<(u128, u128, Option<PositionData>), ContractError>)
        requires
            old(self).wf(),
        ensures
            spec_withdraw_precheck(*old(self), existing, tick_lower as int, tick_upper as int, amount, min_amounts@) matches Some(e)
                ==> r == Err::<(u128, u128, Option<PositionData>), ContractError>(e),
            spec_withdraw_precheck(*old(self), existing, tick_lower as int, tick_upper as int, amount, min_amounts@) is None ==> ({
                let pos = existing->Some_0;
                let (i0, i1) = spec_fee_growth_inside(*old(self), tick_lower as int, tick_upper as int, old(self).slot0.tick as int);
                let totals = spec_withdraw_totals(*old(self), pos, tick_lower as int, tick_upper as int, amount);
                &&& spec_accrued(pos, i0, i1) matches Err(e) ==> r == Err::<(u128, u128, Option<PositionData>), ContractError>(ContractError::Pool(e))
                &&& spec_accrued(pos, i0, i1) is Ok && pos.liquidity < amount
                    ==> r == Err::<(u128, u128, Option<PositionData>), ContractError>(ContractError::Pool(Error::InsufficientLiquidity))
                &&& spec_accrued(pos, i0, i1) is Ok && pos.liquidity >= amount ==> (totals matches Err(e)
                    ==> r == Err::<(u128, u128, Option<PositionData>), ContractError>(ContractError::Pool(e)))
                &&& pos.liquidity >= amount ==> (totals matches Ok((t0, t1)) && (t0 < min_amounts@[0] || t1 < min_amounts@[1])
                    ==> r == Err::<(u128, u128, Option<PositionData>), ContractError>(ContractError::Validation(ValidationError::OutMinNotSatisfied)))
                &&& pos.liquidity >= amount ==> (totals matches Ok((t0, t1)) && t0 >= min_amounts@[0] && t1 >= min_amounts@[1]
                    && (t0 > old(self).reserve0 || t1 > old(self).reserve1)
                    ==> r == Err::<(u128, u128, Option<PositionData>), ContractError>(ContractError::Validation(ValidationError::InsufficientBalance)))
                &&& pos.liquidity >= amount ==> (totals matches Ok((t0, t1)) && t0 >= min_amounts@[0] && t1 >= min_amounts@[1]
                    && t0 <= old(self).reserve0 && t1 <= old(self).reserve1 ==> if spec_withdraw_underflows(*old(self),
                        tick_lower as int, tick_upper as int, amount as nat) {
                        r == Err::<(u128, u128, Option<PositionData>), ContractError>(ContractError::Pool(Error::LiquidityUnderflow))
                    } else {
                        r is Ok
                    })
            }),
            r matches Ok((t0, t1, _)) ==> spec_withdraw_quote(*old(self), existing, tick_lower as int, tick_upper as int, amount)
                == Ok::<(u128, u128), ContractError>((t0, t1)),
            r matches Ok((t0, t1, left)) ==> {
                let p = old(self).slot0.sqrt_price_x96@;
                let cur = old(self).slot0.tick as int;
                let pos = existing->Some_0;
                let (i0, i1) = spec_fee_growth_inside(*old(self), tick_lower as int, tick_upper as int, cur);
                let u = 887272int - 887272int % (old(self).tick_spacing as int);
                &&& spec_withdraw_precheck(*old(self), existing, tick_lower as int, tick_upper as int, amount, min_amounts@) is None
                &&& amount <= pos.liquidity
                &&& (spec_accrued(pos, i0, i1) matches Ok((o0, o1))
                    && spec_amounts_for_liquidity(p, tick_lower as int, tick_upper as int, amount as nat, false) matches Ok((a0, a1))
                    && t0 == a0 + o0 && t1 == a1 + o1)
                &&& t0 >= min_amounts@[0] && t1 >= min_amounts@[1]
                &&& final(self).reserve0 == old(self).reserve0 - t0
                &&& final(self).reserve1 == old(self).reserve1 - t1
                &&& pos.liquidity == amount ==> (left is None
                    && final(user).positions@ == old(user).positions@.filter(other_range(tick_lower, tick_upper)))
                &&& pos.liquidity > amount ==> (left matches Some(q) && q.liquidity == pos.liquidity - amount
                    && q.tokens_owed_0 == 0 && q.tokens_owed_1 == 0
                    && q.fee_growth_inside_0_last_x128@ == i0 && q.fee_growth_inside_1_last_x128@ == i1
                    && final(user).positions == old(user).positions)
                &&& final(self).liquidity as int == if tick_lower <= cur < tick_upper {
                        old(self).liquidity - amount } else { old(self).liquidity as int }
                &&& final(self).full_range_liquidity as int == if tick_lower == -u && tick_upper == u {
                        old(self).full_range_liquidity - amount } else { old(self).full_range_liquidity as int }
                &&& final(self).total_raw_liquidity as nat == sat_sub(old(self).total_raw_liquidity as nat, amount as nat)
                &&& final(user).raw_liquidity as nat == sat_sub(old(user).raw_liquidity as nat, amount as nat)
                &&& spec_boundaries_updated(old(self).ticks.ticks@, final(self).ticks.ticks@, old(self).tick_spacing as int,
                    tick_lower as int, tick_upper as int, -(amount as int), cur, old(self).fee_growth_global_0_x128, old(self).fee_growth_global_1_x128)
                &&& final(self).wf()
                &&& final(self).slot0 == old(self).slot0
                &&& final(self).fee_growth_global_0_x128 == old(self).fee_growth_global_0_x128
                &&& final(self).fee_growth_global_1_x128 == old(self).fee_growth_global_1_x128
                &&& final(self).protocol_fees == old(self).protocol_fees
            },
    {
        if amount == 0 {
            return Err(ContractError::Validation(ValidationError::ZeroAmount));
        }
        if amount > i128::MAX as u128 {
            return Err(ContractError::Pool(Error::LiquidityAmountTooLarge));
        }
        if min_amounts.len() != 2 {
            return Err(ContractError::Validation(ValidationError::WrongInputVecSize));
        }
        if let Err(e) = self.check_ticks_internal(tick_lower, tick_upper) {
            return Err(ContractError::Pool(e));
        }
        proof {
            lemma_distinct_boundaries(tick_lower as int, tick_upper as int, self.tick_spacing as int);
        }
        let is_full_range = match self.full_range_ticks() {
            Ok((full_lower, full_upper)) => tick_lower == full_lower && tick_upper == full_upper,
            Err(e) => {
                return Err(ContractError::Pool(e));
            },
        };
        let mut position = match existing {
            Some(pos) => pos,
            None => {
                return Err(ContractError::Pool(Error::PositionNotFound));
            },
        };
        let slot = self.slot0;
        if let Err(e) = self.accrue_position_fees(&mut position, tick_lower, tick_upper, slot.tick) {
            return Err(ContractError::Pool(e));
        }
        if position.liquidity < amount {
            return Err(ContractError::Pool(Error::InsufficientLiquidity));
        }
        let (amount0, amount1) = match Self::amounts_for_liquidity(&slot, tick_lower, tick_upper, amount, false) {
            Ok(v) => v,
            Err(e) => {
                return Err(ContractError::Pool(e));
            },
        };
        let total_amount0 = match amount0.checked_add(position.tokens_owed_0) {
            Some(v) => v,
            None => {
                return Err(ContractError::Pool(Error::InvalidAmount));
            },
        };
        let total_amount1 = match amount1.checked_add(position.tokens_owed_1) {
            Some(v) => v,
            None => {
                return Err(ContractError::Pool(Error::InvalidAmount));
            },
        };
        if total_amount0 < min_amounts[0] || total_amount1 < min_amounts[1] {
            return Err(ContractError::Validation(ValidationError::OutMinNotSatisfied));
        }
        if self.reserve0 < total_amount0 || self.reserve1 < total_amount1 {
            return Err(ContractError::Validation(ValidationError::InsufficientBalance));
        }
        position.liquidity = position.liquidity - amount;
        position.tokens_owed_0 = 0;
        position.tokens_owed_1 = 0;
        let left = if position.liquidity == 0 {
            Self::remove_user_range_if_empty(user, tick_lower, tick_upper);
            None
        } else {
            Some(position)
        };
        let spacing = self.tick_spacing;
        let fg0 = self.fee_growth_global_0_x128;
        let fg1 = self.fee_growth_global_1_x128;
        let delta = -(amount as i128);
        let ghost t_before = self.ticks.ticks@;
        if let Err(e) = self.ticks.update_tick_liquidity(tick_lower, spacing, delta, false, slot.tick, &fg0, &fg1) {
            return Err(ContractError::Pool(e));
        }
        let ghost t_mid = self.ticks.ticks@;
        if let Err(e) = self.ticks.update_tick_liquidity(tick_upper, spacing, delta, true, slot.tick, &fg0, &fg1) {
            return Err(ContractError::Pool(e));
        }
        proof {
            lemma_boundaries(t_before, t_mid, self.ticks.ticks@, spacing as int, tick_lower as int, tick_upper as int,
                delta as int, slot.tick as int, fg0, fg1);
        }
        if slot.tick >= tick_lower && slot.tick < tick_upper {
            if self.liquidity < amount {
                return Err(ContractError::Pool(Error::LiquidityUnderflow));
            }
            self.liquidity = self.liquidity - amount;
        }
        if is_full_range {
            if self.full_range_liquidity < amount {
                return Err(ContractError::Pool(Error::LiquidityUnderflow));
            }
            self.full_range_liquidity = self.full_range_liquidity - amount;
        }
        self.update_user_raw_liquidity(user, delta);
        self.reserve0 = self.reserve0 - total_amount0;
        self.reserve1 = self.reserve1 - total_amount1;
        Ok((total_amount0, total_amount1, left))
    }
}

impl ConcentratedLiquidityPool {
    /// Pays out up to the requested amounts of a position's owed tokens after bringing its
    /// fees up to date. Returns the amounts paid and the position left (`None` when it is
    /// emptied and removed). `PositionNotFound` without a position. On an error the caller
    /// discards the pool and the user state.
    pub fn collect_internal(
        &mut self,
        existing: Option<PositionData>,
        user: &mut UserState,
        tick_lower: i32,
        tick_upper: i32,
        amount0_requested: u128,
        amount1_requested: u128,
    ) -> (r: Result<(u128, u128, Option<PositionData>), Error>)
        requires
            old(self).wf(),
        ensures
            existing is None ==> r == Err::<(u128, u128, Option<PositionData>), Error>(Error::PositionNotFound),
            existing is Some ==> ({
                let pos = existing->Some_0;
                let (i0, i1) = spec_fee_growth_inside(*old(self), tick_lower as int, tick_upper as int, old(self).slot0.tick as int);
                &&& spec_accrued(pos, i0, i1) matches Err(e) ==> r == Err::<(u128, u128, Option<PositionData>), Error>(e)
                &&& spec_accrued(pos, i0, i1) matches Ok((o0, o1)) ==> ({
                    let c0: nat = if o0 <= amount0_requested { o0 } else { amount0_requested as nat };
                    let c1: nat = if o1 <= amount1_requested { o1 } else { amount1_requested as nat };
                    &&& (c0 > old(self).reserve0 || c1 > old(self).reserve1)
                        ==> r == Err::<(u128, u128, Option<PositionData>), Error>(Error::LiquidityUnderflow)
                    &&& (c0 <= old(self).reserve0 && c1 <= old(self).reserve1) ==> r is Ok
                })
            }),
            r matches Ok((c0, c1, left)) ==> {
                let pos = existing->Some_0;
                let (i0, i1) = spec_fee_growth_inside(*old(self), tick_lower as int, tick_upper as int, old(self).slot0.tick as int);
                &&& spec_accrued(pos, i0, i1) matches Ok((o0, o1))
                    && c0 as nat == (if o0 <= amount0_requested { o0 } else { amount0_requested as nat })
                    && c1 as nat == (if o1 <= amount1_requested { o1 } else { amount1_requested as nat })
                    && (pos.liquidity == 0 && o0 == c0 && o1 == c1 ==> left is None
                        && final(user).positions@ == old(user).positions@.filter(other_range(tick_lower, tick_upper)))
                    && (!(pos.liquidity == 0 && o0 == c0 && o1 == c1) ==> (left matches Some(q)
                        && q.liquidity == pos.liquidity && q.tokens_owed_0 == o0 - c0 && q.tokens_owed_1 == o1 - c1
                        && final(user).positions == old(user).positions))
                &&& final(self).reserve0 == old(self).reserve0 - c0
                &&& final(self).reserve1 == old(self).reserve1 - c1
                &&& *final(self) == (ConcentratedLiquidityPool { reserve0: final(self).reserve0, reserve1: final(self).reserve1, ..*old(self) })
            },
    {
        let mut position = match existing {
            Some(pos) => pos,
            None => {
                return Err(Error::PositionNotFound);
            },
        };
        let tick_current = self.slot0.tick;
        self.accrue_position_fees(&mut position, tick_lower, tick_upper, tick_current)?;
        let amount0 = if position.tokens_owed_0 <= amount0_requested { position.tokens_owed_0 } else { amount0_requested };
        let amount1 = if position.tokens_owed_1 <= amount1_requested { position.tokens_owed_1 } else { amount1_requested };
        position.tokens_owed_0 = position.tokens_owed_0 - amount0;
        position.tokens_owed_1 = position.tokens_owed_1 - amount1;
        if self.reserve0 < amount0 || self.reserve1 < amount1 {
            return Err(Error::LiquidityUnderflow);
        }
        let left = if position.liquidity == 0 && position.tokens_owed_0 == 0 && position.tokens_owed_1 == 0 {
            Self::remove_user_range_if_empty(user, tick_lower, tick_upper);
            None
        } else {
            Some(position)
        };
        self.reserve0 = self.reserve0 - amount0;
        self.reserve1 = self.reserve1 - amount1;
        Ok((amount0, amount1, left))
    }

    /// The fees a position could claim now: its owed tokens after bringing fees up to date.
    pub fn get_position_fees(&self, existing: Option<PositionData>, tick_lower: i32, tick_upper: i32) -> (r: Result<(u128, u128), Error>)
        requires
            self.wf(),
        ensures
            spec_check_ticks(tick_lower as int, tick_upper as int, self.tick_spacing as int) matches Some(e)
                ==> r == Err::<(u128, u128), Error>(e),
            spec_check_ticks(tick_lower as int, tick_upper as int, self.tick_spacing as int) is None && existing is None
                ==> r == Err::<(u128, u128), Error>(Error::PositionNotFound),
            spec_check_ticks(tick_lower as int, tick_upper as int, self.tick_spacing as int) is None && existing is Some ==> ({
                let (i0, i1) = spec_fee_growth_inside(*self, tick_lower as int, tick_upper as int, self.slot0.tick as int);
                match spec_accrued(existing->Some_0, i0, i1) {
                    Ok((o0, o1)) => r == Ok::<(u128, u128), Error>((o0 as u128, o1 as u128)),
                    Err(e) => r == Err::<(u128, u128), Error>(e),
                }
            }),
    {
        self.check_ticks_internal(tick_lower, tick_upper)?;
        let mut position = match existing {
            Some(pos) => pos,
            None => {
                return Err(Error::PositionNotFound);
            },
        };
        self.accrue_position_fees(&mut position, tick_lower, tick_upper, self.slot0.tick)?;
        Ok((position.tokens_owed_0, position.tokens_owed_1))
    }

    /// The full-range liquidity the desired amounts pay for at the current price.
    pub fn estimate_deposit(&self, desired_amounts: &Vec<u128>) -> (r: Result<u128, Error>)
        requires
            self.wf(),
        ensures
            desired_amounts@.len() != 2 ==> r == Err::<u128, Error>(Error::InvalidAmount),
            desired_amounts@.len() == 2 ==> ({
                let u = 887272int - 887272int % (self.tick_spacing as int);
                &&& u <= 0 ==> r == Err::<u128, Error>(Error::TickLowerNotLessThanUpper)
                &&& u > 0 ==> match spec_max_liquidity_for_amounts(self.slot0.sqrt_price_x96@, -u, u,
                        desired_amounts@[0] as nat, desired_amounts@[1] as nat) {
                    Ok(v) => r == Ok::<u128, Error>(v as u128),
                    Err(e) => r == Err::<u128, Error>(e),
                }
            }),
    {
        if desired_amounts.len() != 2 {
            return Err(Error::InvalidAmount);
        }
        let (tick_lower, tick_upper) = self.full_range_ticks()?;
        self.max_liquidity_for_amounts(tick_lower, tick_upper, desired_amounts[0], desired_amounts[1])
    }

    /// Adds liquidity to the canonical full-range position (see `deposit_position`), with at
    /// least `min_shares` liquidity (`OutMinNotSatisfied` otherwise); `WrongInputVecSize` unless two
    /// amounts are given.
    pub fn deposit(
        &mut self,
        existing: Option<PositionData>,
        user: &mut UserState,
        desired_amounts: &Vec<u128>,
        min_shares: u128,
    ) -> (r: Result<(u128, u128, u128, PositionData), ContractError>)
        requires
            old(self).wf(),
        ensures
            desired_amounts@.len() != 2 ==> r == Err::<(u128, u128, u128, PositionData), ContractError>(
                ContractError::Validation(ValidationError::WrongInputVecSize)),
            desired_amounts@.len() == 2 ==> ({
                let u = 887272int - 887272int % (old(self).tick_spacing as int);
                &&& u <= 0 ==> r == Err::<(u128, u128, u128, PositionData), ContractError>(ContractError::Pool(Error::TickLowerNotLessThanUpper))
                &&& u > 0 && old(self).is_killed_deposit
                    ==> r == Err::<(u128, u128, u128, PositionData), ContractError>(ContractError::Pool(Error::DepositKilled))
            }),
            desired_amounts@.len() == 2 && !old(self).is_killed_deposit && 887272int - 887272int % (old(self).tick_spacing as int) > 0 ==> ({
                let u = 887272int - 887272int % (old(self).tick_spacing as int);
                &&& spec_deposit_liquidity(*old(self), -u, u, desired_amounts@) matches Err(e)
                    ==> r == Err::<(u128, u128, u128, PositionData), ContractError>(e)
                &&& spec_deposit_liquidity(*old(self), -u, u, desired_amounts@) is Ok
                    ==> (spec_deposit_quote(*old(self), -u, u, desired_amounts@) matches Err(e)
                        ==> r == Err::<(u128, u128, u128, PositionData), ContractError>(e))
                &&& spec_deposit_quote(*old(self), -u, u, desired_amounts@) matches Ok((_, _, l))
                    ==> (l < min_shares ==> r is Err)
                &&& spec_deposit_quote(*old(self), -u, u, desired_amounts@) matches Ok(q)
                    ==> (spec_deposit_settle_error(*old(self), q, desired_amounts@) matches Some(e)
                        ==> r == Err::<(u128, u128, u128, PositionData), ContractError>(e))
                &&& spec_deposit_quote(*old(self), -u, u, desired_amounts@) matches Ok(q)
                    ==> (spec_deposit_settle_error(*old(self), q, desired_amounts@) is None
                        ==> (spec_deposit_accrual_error(*old(self), existing, -u, u, desired_amounts@, q.2 as int) matches Some(e)
                        ==> r == Err::<(u128, u128, u128, PositionData), ContractError>(ContractError::Pool(e))))
                &&& spec_deposit_quote(*old(self), -u, u, desired_amounts@) matches Ok(q)
                    ==> (spec_deposit_settle_error(*old(self), q, desired_amounts@) is None
                        && spec_deposit_accrual_error(*old(self), existing, -u, u, desired_amounts@, q.2 as int) is None
                        && (old(user).positions@.contains(PositionRange { tick_lower: (-u) as i32, tick_upper: u as i32 })
                            || old(user).positions@.len() < MAX_USER_POSITIONS)
                        && old(self).full_range_liquidity + q.2 <= u128::MAX
                        ==> if q.2 < min_shares {
                            r == Err::<(u128, u128, u128, PositionData), ContractError>(
                                ContractError::Validation(ValidationError::OutMinNotSatisfied))
                        } else {
                            r is Ok
                        })
            }),
            r matches Ok((a0, a1, l, _)) ==> {
                let u = 887272int - 887272int % (old(self).tick_spacing as int);
                spec_deposit_quote(*old(self), -u, u, desired_amounts@) == Ok::<(u128, u128, u128), ContractError>((a0, a1, l))
            },
            r matches Ok((a0, a1, l, _)) ==> {
                let u = 887272int - 887272int % (old(self).tick_spacing as int);
                &&& l >= min_shares
                &&& spec_amounts_for_liquidity(final(self).slot0.sqrt_price_x96@, -u, u, l as nat, true) == Ok::<(u128, u128), Error>((a0, a1))
                &&& spec_max_liquidity_for_amounts(final(self).slot0.sqrt_price_x96@, -u, u,
                    desired_amounts@[0] as nat, desired_amounts@[1] as nat) == Ok::<nat, Error>(l as nat)
                &&& final(self).full_range_liquidity == old(self).full_range_liquidity + l
                &&& final(self).wf()
            },
    {
        if desired_amounts.len() != 2 {
            return Err(ContractError::Validation(ValidationError::WrongInputVecSize));
        }
        let (tick_lower, tick_upper) = match self.full_range_ticks() {
            Ok(v) => v,
            Err(e) => {
                return Err(ContractError::Pool(e));
            },
        };
        let (amount0, amount1, liquidity, position) = self.deposit_position(existing, user, tick_lower, tick_upper, desired_amounts, 0)?;
        if liquidity < min_shares {
            return Err(ContractError::Validation(ValidationError::OutMinNotSatisfied));
        }
        Ok((amount0, amount1, liquidity, position))
    }

    /// Removes `share_amount` of liquidity from the user's full-range position (see
    /// `withdraw_position`); each total must reach its minimum; `WrongInputVecSize` unless two
    /// minimums are given.
    #[verifier::rlimit(40)]
    pub fn withdraw(
        &mut self,
        existing: Option<PositionData>,
        user: &mut UserState,
        share_amount: u128,
        min_amounts: &Vec<u128>,
    ) -> (r: Result<(u128, u128, Option<PositionData>), ContractError>)
        requires
            old(self).wf(),
        ensures
            min_amounts@.len() != 2 ==> r == Err::<(u128, u128, Option<PositionData>), ContractError>(
                ContractError::Validation(ValidationError::WrongInputVecSize)),
            ({
                let u = 887272int - 887272int % (old(self).tick_spacing as int);
                &&& min_amounts@.len() == 2 && u <= 0
                    ==> r == Err::<(u128, u128, Option<PositionData>), ContractError>(ContractError::Pool(Error::TickLowerNotLessThanUpper))
                &&& min_amounts@.len() == 2 && u > 0 ==> (spec_withdraw_precheck(*old(self), existing, -u, u, share_amount, min_amounts@)
                    matches Some(e) ==> r == Err::<(u128, u128, Option<PositionData>), ContractError>(e))
                &&& r matches Ok((t0, t1, _)) ==> spec_withdraw_quote(*old(self), existing, -u, u, share_amount)
                    == Ok::<(u128, u128), ContractError>((t0, t1))
                &&& min_amounts@.len() == 2 && u > 0 ==> (spec_withdraw_quote(*old(self), existing, -u, u, share_amount)
                    matches Ok((t0, t1)) && t0 >= min_amounts@[0] && t1 >= min_amounts@[1] ==> if spec_withdraw_underflows(
                        *old(self), -u, u, share_amount as nat) {
                        r == Err::<(u128, u128, Option<PositionData>), ContractError>(ContractError::Pool(Error::LiquidityUnderflow))
                    } else {
                        r is Ok
                    })
            }),
            r matches Ok((t0, t1, _)) ==> t0 >= min_amounts@[0] && t1 >= min_amounts@[1] && final(self).wf()
                && final(self).reserve0 == old(self).reserve0 - t0 && final(self).reserve1 == old(self).reserve1 - t1,
    {
        if min_amounts.len() != 2 {
            return Err(ContractError::Validation(ValidationError::WrongInputVecSize));
        }
        let (tick_lower, tick_upper) = match self.full_range_ticks() {
            Ok(v) => v,
            Err(e) => {
                return Err(ContractError::Pool(e));
            },
        };
        proof {
            let u = 887272int - 887272int % (self.tick_spacing as int);
            assert(tick_lower as int == -u && tick_upper as int == u);
        }
        self.withdraw_position(existing, user, tick_lower, tick_upper, share_amount, min_amounts)
    }
}

/// `s` is the floor square root of `n`.
pub open spec fn is_floor_sqrt(n: nat, s: nat) -> bool {
    s * s <= n < (s + 1) * (s + 1)
}

/// The floor square root of `n`.
pub open spec fn spec_floor_sqrt(n: nat) -> nat {
    choose|s: nat| #[trigger] is_floor_sqrt(n, s)
}

/// Any `s` with `s^2 <= n < (s + 1)^2` is the floor square root.
pub proof fn lemma_floor_sqrt_unique(n: nat, s: nat)
    requires
        s * s <= n < (s + 1) * (s + 1),
    ensures
        spec_floor_sqrt(n) == s,
{
    assert(is_floor_sqrt(n, s));
    let t = spec_floor_sqrt(n);
    assert(is_floor_sqrt(n, t));
    if t < s {
        assert((t + 1) * (t + 1) <= s * s) by (nonlinear_arith) requires t + 1 <= s;
    }
    if s < t {
        assert((s + 1) * (s + 1) <= t * t) by (nonlinear_arith) requires s + 1 <= t;
    }
}

/// The price a deposit works at: the pool's price, or for an empty pool the floor square
/// root of the amounts' ratio in Q64.96.
pub open spec fn spec_deposit_price(pool: ConcentratedLiquidityPool, desired: Seq<u128>) -> nat {
    if pool.total_raw_liquidity == 0 {
        spec_floor_sqrt(spec_price_ratio_q192(desired[0] as nat, desired[1] as nat))
    } else {
        pool.slot0.sqrt_price_x96@
    }
}

/// The starting price an empty pool takes from a first deposit of `amount0` and `amount1`
/// over [tick_lower, tick_upper): the floor square root of the amounts' ratio in Q64.96;
/// `PriceOutOfBounds` outside the admissible prices, `TickOutOfBounds` when its tick is not
/// in the range.
pub open spec fn spec_init_price(tick_lower: int, tick_upper: int, amount0: nat, amount1: nat) -> Result<nat, Error> {
    let ratio = spec_price_ratio_q192(amount0, amount1);
    let p = spec_floor_sqrt(ratio);
    if !(ratio < b256() && spec_min_sqrt_ratio() * spec_min_sqrt_ratio() <= ratio
        && ratio < spec_max_sqrt_ratio() * spec_max_sqrt_ratio()) {
        Err(Error::PriceOutOfBounds)
    } else if !(tick_lower <= spec_tick_at_sqrt_ratio(p) < tick_upper) {
        Err(Error::TickOutOfBounds)
    } else {
        Ok(p)
    }
}

/// The price a deposit of `desired` over [tick_lower, tick_upper) works at and the liquidity
/// it mints, before it touches the pool: the checks of the input, the price (an empty pool's
/// from the amounts, which must both be nonzero), and the largest liquidity the amounts pay
/// for, which must be nonzero and at most `i128::MAX`.
pub open spec fn spec_deposit_liquidity(pool: ConcentratedLiquidityPool, tick_lower: int, tick_upper: int, desired: Seq<u128>)
    -> Result<(nat, nat), ContractError>
{
    if desired.len() != 2 {
        Err(ContractError::Validation(ValidationError::WrongInputVecSize))
    } else if desired[0] == 0 && desired[1] == 0 {
        Err(ContractError::Validation(ValidationError::ZeroAmount))
    } else if spec_check_ticks(tick_lower, tick_upper, pool.tick_spacing as int) is Some {
        Err(ContractError::Pool(spec_check_ticks(tick_lower, tick_upper, pool.tick_spacing as int)->Some_0))
    } else {
        let price: Result<nat, ContractError> = if pool.total_raw_liquidity != 0 {
            Ok(pool.slot0.sqrt_price_x96@)
        } else if desired[0] > 0 && desired[1] > 0 {
            match spec_init_price(tick_lower, tick_upper, desired[0] as nat, desired[1] as nat) {
                Ok(p) => Ok(p),
                Err(e) => Err(ContractError::Pool(e)),
            }
        } else {
            Err(ContractError::Validation(ValidationError::AllCoinsRequired))
        };
        match price {
            Err(e) => Err(e),
            Ok(p) => match spec_max_liquidity_for_amounts(p, tick_lower, tick_upper, desired[0] as nat, desired[1] as nat) {
                Err(e) => Err(ContractError::Pool(e)),
                Ok(l) => if l == 0 {
                    Err(ContractError::Validation(ValidationError::ZeroAmount))
                } else if l > i128::MAX {
                    Err(ContractError::Pool(Error::LiquidityAmountTooLarge))
                } else {
                    Ok((p, l))
                },
            },
        }
    }
}

/// What a deposit of `desired` over [tick_lower, tick_upper) costs and mints: the liquidity of
/// `spec_deposit_liquidity` and its amounts at the deposit's price, rounded up.
pub open spec fn spec_deposit_quote(pool: ConcentratedLiquidityPool, tick_lower: int, tick_upper: int, desired: Seq<u128>)
    -> Result<(u128, u128, u128), ContractError>
{
    match spec_deposit_liquidity(pool, tick_lower, tick_upper, desired) {
        Err(e) => Err(e),
        Ok((p, l)) => match spec_amounts_for_liquidity(p, tick_lower, tick_upper, l, true) {
            Err(e) => Err(ContractError::Pool(e)),
            Ok((a0, a1)) => Ok((a0, a1, l as u128)),
        },
    }
}

impl ConcentratedLiquidityPool {
    /// The amounts and liquidity `deposit_position` would produce for these inputs, without
    /// changing the pool.
    pub fn estimate_deposit_position(&self, tick_lower: i32, tick_upper: i32, desired_amounts: &Vec<u128>)
        -> (r: Result<(u128, u128, u128), ContractError>)
        requires
            self.wf(),
        ensures
            r == spec_deposit_quote(*self, tick_lower as int, tick_upper as int, desired_amounts@),
            r matches Ok((a0, a1, l)) ==> {
                let p = spec_deposit_price(*self, desired_amounts@);
                &&& desired_amounts@.len() == 2
                &&& spec_check_ticks(tick_lower as int, tick_upper as int, self.tick_spacing as int) is None
                &&& spec_max_liquidity_for_amounts(p, tick_lower as int, tick_upper as int,
                    desired_amounts@[0] as nat, desired_amounts@[1] as nat) == Ok::<nat, Error>(l as nat)
                &&& 0 < l <= i128::MAX
                &&& spec_amounts_for_liquidity(p, tick_lower as int, tick_upper as int, l as nat, true) == Ok::<(u128, u128), Error>((a0, a1))
            },
    {
        if desired_amounts.len() != 2 {
            return Err(ContractError::Validation(ValidationError::WrongInputVecSize));
        }
        let desired_amount0 = desired_amounts[0];
        let desired_amount1 = desired_amounts[1];
        if desired_amount0 == 0 && desired_amount1 == 0 {
            return Err(ContractError::Validation(ValidationError::ZeroAmount));
        }
        if let Err(e) = self.check_ticks_internal(tick_lower, tick_upper) {
            return Err(ContractError::Pool(e));
        }
        let mut slot = self.slot0;
        if self.total_raw_liquidity == 0 && desired_amount0 > 0 && desired_amount1 > 0 {
            match Self::init_sqrt_price_for_range(tick_lower, tick_upper, desired_amount0, desired_amount1) {
                Ok((sqrt_price_x96, tick)) => {
                    proof {
                        lemma_floor_sqrt_unique(spec_price_ratio_q192(desired_amount0 as nat, desired_amount1 as nat), sqrt_price_x96@);
                    }
                    slot = Slot0 { sqrt_price_x96, tick };
                },
                Err(e) => {
                    return Err(ContractError::Pool(e));
                },
            }
        }
        if self.total_raw_liquidity == 0 && !(desired_amount0 > 0 && desired_amount1 > 0) {
            return Err(ContractError::Validation(ValidationError::AllCoinsRequired));
        }
        let liquidity = match Self::max_liquidity_for_amounts_at_slot(&slot, tick_lower, tick_upper, desired_amount0, desired_amount1) {
            Ok(v) => v,
            Err(e) => {
                return Err(ContractError::Pool(e));
            },
        };
        if liquidity == 0 {
            return Err(ContractError::Validation(ValidationError::ZeroAmount));
        }
        if liquidity > i128::MAX as u128 {
            return Err(ContractError::Pool(Error::LiquidityAmountTooLarge));
        }
        match Self::amounts_for_liquidity(&slot, tick_lower, tick_upper, liquidity, true) {
            Ok((amount0, amount1)) => Ok((amount0, amount1, liquidity)),
            Err(e) => Err(ContractError::Pool(e)),
        }
    }

    /// The totals `withdraw_position` would pay out: principal rounded down plus all fees
    /// owed, without changing the pool.
    pub fn estimate_withdraw_position(&self, existing: Option<PositionData>, tick_lower: i32, tick_upper: i32, amount: u128)
        -> (r: Result<(u128, u128), ContractError>)
        requires
            self.wf(),
        ensures
            r == spec_withdraw_quote(*self, existing, tick_lower as int, tick_upper as int, amount),
            r matches Ok((t0, t1)) ==> {
                let pos = existing->Some_0;
                let (i0, i1) = spec_fee_growth_inside(*self, tick_lower as int, tick_upper as int, self.slot0.tick as int);
                &&& existing is Some && amount <= pos.liquidity
                &&& (spec_accrued(pos, i0, i1) matches Ok((o0, o1))
                    && spec_amounts_for_liquidity(self.slot0.sqrt_price_x96@, tick_lower as int, tick_upper as int, amount as nat, false)
                        matches Ok((a0, a1))
                    && t0 == a0 + o0 && t1 == a1 + o1)
                &&& t0 <= self.reserve0 && t1 <= self.reserve1
            },
    {
        if amount == 0 {
            return Err(ContractError::Validation(ValidationError::ZeroAmount));
        }
        if amount > i128::MAX as u128 {
            return Err(ContractError::Pool(Error::LiquidityAmountTooLarge));
        }
        if let Err(e) = self.check_ticks_internal(tick_lower, tick_upper) {
            return Err(ContractError::Pool(e));
        }
        let mut position = match existing {
            Some(pos) => pos,
            None => {
                return Err(ContractError::Pool(Error::PositionNotFound));
            },
        };
        if position.liquidity < amount {
            return Err(ContractError::Pool(Error::InsufficientLiquidity));
        }
        let slot = self.slot0;
        if let Err(e) = self.accrue_position_fees(&mut position, tick_lower, tick_upper, slot.tick) {
            return Err(ContractError::Pool(e));
        }
        let (amount0, amount1) = match Self::amounts_for_liquidity(&slot, tick_lower, tick_upper, amount, false) {
            Ok(v) => v,
            Err(e) => {
                return Err(ContractError::Pool(e));
            },
        };
        let total_amount0 = match amount0.checked_add(position.tokens_owed_0) {
            Some(v) => v,
            None => {
                return Err(ContractError::Pool(Error::InvalidAmount));
            },
        };
        let total_amount1 = match amount1.checked_add(position.tokens_owed_1) {
            Some(v) => v,
            None => {
                return Err(ContractError::Pool(Error::InvalidAmount));
            },
        };
        if self.reserve0 < total_amount0 || self.reserve1 < total_amount1 {
            return Err(ContractError::Validation(ValidationError::InsufficientBalance));
        }
        Ok((total_amount0, total_amount1))
    }

    /// A freshly initialized pool: the given fee and spacing, price at tick 0, no liquidity,
    /// protocol share 5000 / FEE_DENOMINATOR. `InvalidFee` for a fee of FEE_DENOMINATOR or
    /// more, `InvalidTickSpacing` for a non-positive spacing.
    pub fn initialize(fee: u32, tick_spacing: i32) -> (r: Result<ConcentratedLiquidityPool, ContractError>)
        ensures
            fee as u128 >= FEE_DENOMINATOR ==> r == Err::<ConcentratedLiquidityPool, ContractError>(
                ContractError::Pool(Error::InvalidFee)),
            (fee as u128) < FEE_DENOMINATOR && tick_spacing <= 0 ==> r == Err::<ConcentratedLiquidityPool, ContractError>(
                ContractError::Pool(Error::InvalidTickSpacing)),
            (fee as u128) < FEE_DENOMINATOR && tick_spacing > 0 ==> r is Ok,
            r matches Ok(pool) ==> {
                &&& (fee as u128) < FEE_DENOMINATOR && tick_spacing > 0
                &&& pool.wf()
                &&& pool.fee == fee && pool.tick_spacing == tick_spacing
                &&& pool.slot0.tick == 0 && pool.slot0.sqrt_price_x96@ == spec_sqrt_ratio_at_tick(0)
                &&& pool.liquidity == 0 && pool.total_raw_liquidity == 0 && pool.full_range_liquidity == 0
                &&& pool.fee_growth_global_0_x128@ == 0 && pool.fee_growth_global_1_x128@ == 0
                &&& pool.protocol_fees.token0 == 0 && pool.protocol_fees.token1 == 0
                &&& pool.protocol_fee_fraction == 5000
                &&& pool.reserve0 == 0 && pool.reserve1 == 0
                &&& !pool.is_killed_deposit && !pool.is_killed_swap
                &&& pool.ticks.ticks@ == Map::<i32, TickInfo>::empty()
            },
    {
        if fee as u128 >= FEE_DENOMINATOR {
            return Err(ContractError::Pool(Error::InvalidFee));
        }
        if tick_spacing <= 0 {
            return Err(ContractError::Pool(Error::InvalidTickSpacing));
        }
        let sqrt_price_x96 = match sqrt_ratio_at_tick(0) {
            Ok(v) => v,
            Err(e) => {
                return Err(ContractError::Pool(e));
            },
        };
        Ok(ConcentratedLiquidityPool {
            fee,
            tick_spacing,
            protocol_fee_fraction: 5000,
            slot0: Slot0 { sqrt_price_x96, tick: 0 },
            liquidity: 0,
            fee_growth_global_0_x128: U256::zero(),
            fee_growth_global_1_x128: U256::zero(),
            protocol_fees: ProtocolFees { token0: 0, token1: 0 },
            reserve0: 0,
            reserve1: 0,
            total_raw_liquidity: 0,
            full_range_liquidity: 0,
            is_killed_deposit: false,
            is_killed_swap: false,
            ticks: TickStore::new(),
        })
    }

    /// Sets the pool price directly; `InvalidSqrtPrice` for zero and `PriceOutOfBounds`
    /// outside the admissible range.
    pub fn initialize_price(&mut self, sqrt_price_x96: &U256) -> (r: Result<(), Error>)
        requires
            old(self).wf(),
        ensures
            sqrt_price_x96@ == 0 ==> r == Err::<(), Error>(Error::InvalidSqrtPrice) && *final(self) == *old(self),
            sqrt_price_x96@ != 0 && !(spec_min_sqrt_ratio() <= sqrt_price_x96@ < spec_max_sqrt_ratio())
                ==> r == Err::<(), Error>(Error::PriceOutOfBounds) && *final(self) == *old(self),
            sqrt_price_x96@ != 0 && spec_min_sqrt_ratio() <= sqrt_price_x96@ < spec_max_sqrt_ratio() ==> r is Ok
                && final(self).slot0.sqrt_price_x96 == *sqrt_price_x96
                && final(self).slot0.tick as int == spec_tick_at_sqrt_ratio(sqrt_price_x96@)
                && *final(self) == (ConcentratedLiquidityPool { slot0: final(self).slot0, ..*old(self) })
                && final(self).wf(),
    {
        if sqrt_price_x96.is_zero() {
            return Err(Error::InvalidSqrtPrice);
        }
        let tick = tick_at_sqrt_ratio(sqrt_price_x96)?;
        self.slot0 = Slot0 { sqrt_price_x96: *sqrt_price_x96, tick };
        Ok(())
    }

    /// Sets the protocol share of swap fees; `FeeOutOfBounds` above FEE_DENOMINATOR.
    pub fn set_protocol_fee_fraction(&mut self, new_fraction: u32) -> (r: Result<(), ValidationError>)
        ensures
            new_fraction as u128 > FEE_DENOMINATOR ==> r == Err::<(), ValidationError>(ValidationError::FeeOutOfBounds)
                && *final(self) == *old(self),
            new_fraction as u128 <= FEE_DENOMINATOR ==> r is Ok
                && *final(self) == (ConcentratedLiquidityPool { protocol_fee_fraction: new_fraction, ..*old(self) }),
    {
        if new_fraction as u128 > FEE_DENOMINATOR {
            return Err(ValidationError::FeeOutOfBounds);
        }
        self.protocol_fee_fraction = new_fraction;
        Ok(())
    }

    /// Takes the accumulated protocol fees: returns them and resets the counters.
    pub fn claim_protocol_fees(&mut self) -> (r: (u128, u128))
        ensures
            r == (old(self).protocol_fees.token0, old(self).protocol_fees.token1),
            *final(self) == (ConcentratedLiquidityPool { protocol_fees: ProtocolFees { token0: 0, token1: 0 }, ..*old(self) }),
    {
        let amount0 = self.protocol_fees.token0;
        let amount1 = self.protocol_fees.token1;
        self.protocol_fees = ProtocolFees { token0: 0, token1: 0 };
        (amount0, amount1)
    }

    /// Moves the price of a pool stranded outside its initialized ticks
    /// [min_init_tick, max_init_tick] to just outside them, so that the next swap reaches its
    /// liquidity: one tick below the lowest (not below MIN_TICK) when the price is below,
    /// the highest (not above MAX_TICK) when it is above. Nothing changes when the bounds are
    /// inverted (no liquidity) or hold the current tick. No tick is crossed, so the active
    /// liquidity stays. `TickOutOfBounds` when the new tick lies outside the tick bounds.
    pub fn unbrick_pool(&mut self, min_init_tick: i32, max_init_tick: i32) -> (r: Result<(), Error>)
        ensures
            ({
                let cur = old(self).slot0.tick;
                let target: int = if cur < min_init_tick {
                    if min_init_tick - 1 < MIN_TICK { MIN_TICK as int } else { min_init_tick - 1 }
                } else if max_init_tick > MAX_TICK {
                    MAX_TICK as int
                } else {
                    max_init_tick as int
                };
                &&& (min_init_tick > max_init_tick || min_init_tick <= cur <= max_init_tick)
                    ==> r is Ok && *final(self) == *old(self)
                &&& !(min_init_tick > max_init_tick || min_init_tick <= cur <= max_init_tick)
                    && !(MIN_TICK <= target <= MAX_TICK)
                    ==> r == Err::<(), Error>(Error::TickOutOfBounds) && *final(self) == *old(self)
                &&& !(min_init_tick > max_init_tick || min_init_tick <= cur <= max_init_tick)
                    && MIN_TICK <= target <= MAX_TICK
                    ==> r is Ok && final(self).slot0.tick == target
                        && final(self).slot0.sqrt_price_x96@ == spec_sqrt_ratio_at_tick(target)
                        && *final(self) == (ConcentratedLiquidityPool { slot0: final(self).slot0, ..*old(self) })
            }),
    {
        let slot = self.slot0;
        if min_init_tick > max_init_tick || (slot.tick >= min_init_tick && slot.tick <= max_init_tick) {
            return Ok(());
        }
        let target = if slot.tick < min_init_tick {
            let below = min_init_tick - 1;
            if below < MIN_TICK { MIN_TICK } else { below }
        } else if max_init_tick > MAX_TICK {
            MAX_TICK
        } else {
            max_init_tick
        };
        let sqrt_price_x96 = sqrt_ratio_at_tick(target)?;
        self.slot0 = Slot0 { sqrt_price_x96, tick: target };
        Ok(())
    }
}

/// Two distinct spacing multiples compress to distinct ticks.
pub proof fn lemma_distinct_boundaries(tick_lower: int, tick_upper: int, spacing: int)
    requires
        spacing > 0,
        tick_lower < tick_upper,
        MIN_TICK <= tick_lower,
        tick_upper <= MAX_TICK,
        tick_lower % spacing == 0,
        tick_upper % spacing == 0,
    ensures
        floor_div(tick_lower, spacing) < floor_div(tick_upper, spacing),
        floor_div(tick_lower, spacing) * spacing == tick_lower,
        floor_div(tick_upper, spacing) * spacing == tick_upper,
        -887272 <= floor_div(tick_lower, spacing) <= 887272,
        -887272 <= floor_div(tick_upper, spacing) <= 887272,
        spacing <= 887272,
        887272int - 887272int % spacing > 0,
{
    vstd::arithmetic::div_mod::lemma_fundamental_div_mod(tick_lower, spacing);
    vstd::arithmetic::div_mod::lemma_fundamental_div_mod(tick_upper, spacing);
    let a = tick_lower / spacing;
    let b = tick_upper / spacing;
    assert(a * spacing == spacing * a) by (nonlinear_arith);
    assert(b * spacing == spacing * b) by (nonlinear_arith);
    if a >= b {
        assert(a * spacing >= b * spacing) by (nonlinear_arith) requires a >= b, spacing > 0;
    }
    assert(-887272 <= a <= 887272) by (nonlinear_arith)
        requires a * spacing == tick_lower, spacing >= 1, -887272 <= tick_lower <= 887272;
    assert(-887272 <= b <= 887272) by (nonlinear_arith)
        requires b * spacing == tick_upper, spacing >= 1, -887272 <= tick_upper <= 887272;
    if spacing > 887272 {
        assert(a == 0) by (nonlinear_arith)
            requires a * spacing == tick_lower, spacing > 887272, -887272 <= tick_lower <= 887272;
        assert(b == 0) by (nonlinear_arith)
            requires b * spacing == tick_upper, spacing > 887272, -887272 <= tick_upper <= 887272;
    }
    vstd::arithmetic::div_mod::lemma_mod_bound(887272int, spacing);
}

/// Two successive single-tick updates on distinct compressed ticks update both boundaries.
pub proof fn lemma_boundaries(
    t0: Map<i32, TickInfo>,
    t1: Map<i32, TickInfo>,
    t2: Map<i32, TickInfo>,
    spacing: int,
    tick_lower: int,
    tick_upper: int,
    delta: int,
    current: int,
    fg0: U256,
    fg1: U256,
)
    requires
        spacing > 0,
        crate::ticks::in_i32(floor_div(tick_lower, spacing)),
        crate::ticks::in_i32(floor_div(tick_upper, spacing)),
        floor_div(tick_lower, spacing) != floor_div(tick_upper, spacing),
        t1 == t0.insert(floor_div(tick_lower, spacing) as i32,
            spec_updated_tick(tick_at(t0, floor_div(tick_lower, spacing)), delta, false, tick_lower <= current, fg0, fg1)),
        t2 == t1.insert(floor_div(tick_upper, spacing) as i32,
            spec_updated_tick(tick_at(t1, floor_div(tick_upper, spacing)), delta, true, tick_upper <= current, fg0, fg1)),
    ensures
        spec_boundaries_updated(t0, t2, spacing, tick_lower, tick_upper, delta, current, fg0, fg1),
{
    let cl = floor_div(tick_lower, spacing);
    let cu = floor_div(tick_upper, spacing);
    assert(cl as i32 != cu as i32);
    assert forall|c: int| c != cl && c != cu implies #[trigger] tick_at(t2, c) == tick_at(t0, c) by {
        if crate::ticks::in_i32(c) {
            assert(c as i32 != cl as i32);
            assert(c as i32 != cu as i32);
        }
    }
}

} // verus!
