//! Swapping against the pool: one step within a tick range, and the walk across ticks.

use vstd::prelude::*;

verus! {

use crate::constants::FEE_DENOMINATOR;
use crate::errors::ConcentratedPoolError as Error;
use crate::errors::{ContractError, LiquidityPoolValidationError as ValidationError};
use crate::math::{
    amount0_delta, amount0_delta_spec, amount1_delta, amount1_delta_spec,
    get_next_sqrt_price_from_input, get_next_sqrt_price_from_output, mul_div_u128,
    spec_mul_div_u128, spec_next_sqrt_price_from_amount0, spec_next_sqrt_price_from_amount1,
};
use crate::bitmap::floor_div;
use crate::constants::{MAX_TICK, MIN_TICK};
use crate::math::{fee_growth_delta_x128, wrapping_add_u256};
use crate::math::{max_sqrt_ratio, min_sqrt_ratio, spec_max_sqrt_ratio, spec_min_sqrt_ratio};
use crate::pool::ConcentratedLiquidityPool;
use crate::tick_math::{sqrt_ratio_at_tick, spec_sqrt_ratio_at_tick, spec_tick_at_sqrt_ratio, tick_at_sqrt_ratio};
use crate::ticks::{initialized_at, spec_next_initialized_tick, tick_at};
use crate::types::{ProtocolFees, Slot0, SwapResult, TickInfo};
use crate::u256::U256;

/// The outcome of one swap step: the price reached and the amounts exchanged.
#[derive(Clone, Copy, Debug, PartialEq, Eq, Structural)]
pub struct SwapStep {
    pub sqrt_next: U256,
    pub amount_in: u128,
    pub amount_out: u128,
    pub fee_amount: u128,
}

/// Input owed for moving the price from `cur` to `next` (rounded up).
pub open spec fn spec_step_in(next: nat, cur: nat, l: nat, zero_for_one: bool) -> Result<u128, Error> {
    if zero_for_one {
        amount0_delta_spec(next, cur, l, true)
    } else {
        Ok(amount1_delta_spec(cur, next, l, true))
    }
}

/// Output paid for moving the price from `cur` to `next` (rounded down).
pub open spec fn spec_step_out(next: nat, cur: nat, l: nat, zero_for_one: bool) -> Result<u128, Error> {
    if zero_for_one {
        Ok(amount1_delta_spec(next, cur, l, false))
    } else {
        amount0_delta_spec(cur, next, l, false)
    }
}

/// `v` clamped into the closed range between `target` and `cur` on the side of the move.
pub open spec fn clamp_toward(v: nat, target: nat, zero_for_one: bool) -> nat {
    if zero_for_one {
        if v >= target { v } else { target }
    } else {
        if v <= target { v } else { target }
    }
}

/// The price reached from `cur` after a given input (`exact_input`) or output amount.
pub open spec fn spec_step_price(cur: nat, l: nat, amount: nat, zero_for_one: bool, exact_input: bool) -> Result<nat, Error> {
    if exact_input {
        if zero_for_one {
            spec_next_sqrt_price_from_amount0(cur, l, amount, true)
        } else {
            spec_next_sqrt_price_from_amount1(cur, l, amount, true)
        }
    } else {
        if zero_for_one {
            spec_next_sqrt_price_from_amount1(cur, l, amount, false)
        } else {
            spec_next_sqrt_price_from_amount0(cur, l, amount, false)
        }
    }
}

/// `a - b`, or 0 when `b > a`.
pub open spec fn sat_sub(a: nat, b: nat) -> nat {
    if a >= b { (a - b) as nat } else { 0 }
}

/// One swap step from `cur` toward `target` with liquidity `l` and `rem` of the specified
/// amount left: the price reached, input, output and fee, as `(next, in, out, fee)`.
/// With exact input the fee comes off the amount first and the step stops short of the
/// target when the rest does not reach it; with exact output the step pays at most `rem`.
#[verifier::opaque]
pub open spec fn spec_compute_swap_step(
    cur: nat,
    target: nat,
    l: nat,
    rem: nat,
    fee: nat,
    zero_for_one: bool,
    exact_input: bool,
) -> Result<(nat, u128, u128, u128), Error> {
    if l == 0 {
        Ok((target, 0u128, 0u128, 0u128))
    } else {
        let fee_complement = (FEE_DENOMINATOR - fee) as nat;
        let budget = if exact_input {
            spec_mul_div_u128(rem, fee_complement, FEE_DENOMINATOR as nat, false)
        } else {
            Ok(rem)
        };
        let to_target = if exact_input {
            spec_step_in(target, cur, l, zero_for_one)
        } else {
            spec_step_out(target, cur, l, zero_for_one)
        };
        match budget {
            Err(e) => Err(e),
            Ok(budget) => match to_target {
                Err(e) => Err(e),
                Ok(to_target) => {
                    let next = if budget >= to_target {
                        Ok(target)
                    } else {
                        match spec_step_price(cur, l, budget, zero_for_one, exact_input) {
                            Err(e) => Err(e),
                            Ok(v) => Ok(clamp_toward(v, target, zero_for_one)),
                        }
                    };
                    match next {
                        Err(e) => Err(e),
                        Ok(next) => match spec_step_in(next, cur, l, zero_for_one) {
                            Err(e) => Err(e),
                            Ok(amount_in) => match spec_step_out(next, cur, l, zero_for_one) {
                                Err(e) => Err(e),
                                Ok(amount_out) => {
                                    let out = if !exact_input && amount_out > rem { rem as u128 } else { amount_out };
                                    let fee_r = if exact_input && next != target {
                                        Ok(sat_sub(rem, amount_in as nat))
                                    } else {
                                        spec_mul_div_u128(amount_in as nat, fee, fee_complement, true)
                                    };
                                    match fee_r {
                                        Err(e) => Err(e),
                                        Ok(f) => Ok((next, amount_in, out, f as u128)),
                                    }
                                },
                            },
                        },
                    }
                },
            },
        }
    }
}

/// Bound on the number of steps of one swap walk.
pub const MAX_SWAP_STEPS: u64 = 0xffff_ffff_ffff_ffff;

/// `a + b` saturating at `u128::MAX`.
pub open spec fn sat_add_u128(a: nat, b: nat) -> nat {
    if a + b > u128::MAX { u128::MAX as nat } else { a + b }
}

/// Where a swap walk stands: price, tick, active liquidity, specified amount left and the
/// amount computed so far.
pub struct SwapWalk {
    pub sqrt_price: nat,
    pub tick: int,
    pub liquidity: nat,
    pub remaining: nat,
    pub calculated: nat,
}

/// Active liquidity after crossing a tick with net liquidity `net`; moving down
/// (`zero_for_one`) subtracts it. `LiquidityUnderflow` when it would go negative,
/// `LiquidityOverflow` when `-net` is not an `i128`.
pub open spec fn spec_cross_liquidity(liquidity: nat, net: int, zero_for_one: bool) -> Result<nat, Error> {
    if zero_for_one && net == i128::MIN as int {
        Err(Error::LiquidityOverflow)
    } else {
        let eff = if zero_for_one { -net } else { net };
        if eff < 0 {
            if liquidity < -eff { Err(Error::LiquidityUnderflow) } else { Ok((liquidity + eff) as nat) }
        } else {
            Ok(sat_add_u128(liquidity, eff as nat))
        }
    }
}

/// The tick of a price, or `PriceOutOfBounds` outside [MIN_SQRT_RATIO, MAX_SQRT_RATIO).
pub open spec fn spec_tick_of_price(p: nat) -> Result<int, Error> {
    if spec_min_sqrt_ratio() <= p < spec_max_sqrt_ratio() {
        Ok(spec_tick_at_sqrt_ratio(p))
    } else {
        Err(Error::PriceOutOfBounds)
    }
}

/// One step of a swap walk: to the next initialized tick or word boundary, or to the price
/// limit when that comes first, crossing the tick when it is reached exactly.
#[verifier::opaque]
pub open spec fn spec_swap_iteration(
    m: Map<i32, TickInfo>,
    spacing: int,
    fee: nat,
    zero_for_one: bool,
    exact_input: bool,
    limit: nat,
    w: SwapWalk,
) -> Result<SwapWalk, Error> {
    let (next_tick, initialized) = spec_next_initialized_tick(m, w.tick, spacing, zero_for_one);
    let next_price = spec_sqrt_ratio_at_tick(next_tick);
    let target = if zero_for_one {
        if next_price < limit { limit } else { next_price }
    } else {
        if next_price > limit { limit } else { next_price }
    };
    match spec_compute_swap_step(w.sqrt_price, target, w.liquidity, w.remaining, fee, zero_for_one, exact_input) {
        Err(e) => Err(e),
        Ok((next, amount_in, amount_out, fee_amount)) => {
            let remaining = if exact_input {
                sat_sub(sat_sub(w.remaining, amount_in as nat), fee_amount as nat)
            } else {
                sat_sub(w.remaining, amount_out as nat)
            };
            let calculated = if exact_input {
                sat_add_u128(w.calculated, amount_out as nat)
            } else {
                sat_add_u128(sat_add_u128(w.calculated, amount_in as nat), fee_amount as nat)
            };
            if next == next_price {
                let liq = if initialized {
                    spec_cross_liquidity(w.liquidity, tick_at(m, floor_div(next_tick, spacing)).liquidity_net as int, zero_for_one)
                } else {
                    Ok(w.liquidity)
                };
                let tick = if zero_for_one {
                    if next_tick - 1 < MIN_TICK { MIN_TICK as int } else { next_tick - 1 }
                } else {
                    if next_tick > MAX_TICK { MAX_TICK as int } else { next_tick }
                };
                match liq {
                    Err(e) => Err(e),
                    Ok(l) => Ok(SwapWalk { sqrt_price: next, tick, liquidity: l, remaining, calculated }),
                }
            } else if next != w.sqrt_price {
                match spec_tick_of_price(next) {
                    Err(e) => Err(e),
                    Ok(t) => Ok(SwapWalk { sqrt_price: next, tick: t, liquidity: w.liquidity, remaining, calculated }),
                }
            } else {
                Ok(SwapWalk { sqrt_price: next, tick: w.tick, liquidity: w.liquidity, remaining, calculated })
            }
        },
    }
}

/// Steps until the amount is used up or the price reaches the limit, at most `fuel` steps.
pub open spec fn spec_swap_walk(
    m: Map<i32, TickInfo>,
    spacing: int,
    fee: nat,
    zero_for_one: bool,
    exact_input: bool,
    limit: nat,
    w: SwapWalk,
    fuel: nat,
) -> Result<SwapWalk, Error>
    decreases fuel,
{
    if w.remaining == 0 || w.sqrt_price == limit {
        Ok(w)
    } else if fuel == 0 {
        Err(Error::InsufficientLiquidity)
    } else {
        match spec_swap_iteration(m, spacing, fee, zero_for_one, exact_input, limit, w) {
            Err(e) => Err(e),
            Ok(w2) => spec_swap_walk(m, spacing, fee, zero_for_one, exact_input, limit, w2, (fuel - 1) as nat),
        }
    }
}

/// The effective price limit: a zero limit means the extreme price in the swap direction;
/// `InvalidPriceLimit` unless it lies strictly between the current price and the bound.
pub open spec fn spec_price_limit(price: nat, zero_for_one: bool, limit: nat) -> Result<nat, Error> {
    let l = if limit == 0 {
        if zero_for_one { spec_min_sqrt_ratio() + 1 } else { (spec_max_sqrt_ratio() - 1) as nat }
    } else {
        limit
    };
    if zero_for_one {
        if l <= spec_min_sqrt_ratio() || l >= price { Err(Error::InvalidPriceLimit) } else { Ok(l) }
    } else {
        if l >= spec_max_sqrt_ratio() || l <= price { Err(Error::InvalidPriceLimit) } else { Ok(l) }
    }
}

/// The result of a finished walk: an exact-output swap must have paid out all of it.
pub open spec fn finish_walk(r: Result<SwapWalk, Error>, exact_input: bool, abs: nat) -> Result<(nat, nat, SwapWalk), Error> {
    match r {
        Err(e) => Err(e),
        Ok(w) => if !exact_input && w.remaining > 0 {
            Err(Error::InsufficientLiquidity)
        } else {
            Ok((sat_sub(abs, w.remaining), w.calculated, w))
        },
    }
}

/// The outcome of a swap of `amount_specified` (positive: exact input, negative: exact
/// output) against a pool: the part of the specified amount used, the computed amount of the
/// other token, and where the walk ended.
pub open spec fn spec_swap_outcome(
    pool: ConcentratedLiquidityPool,
    zero_for_one: bool,
    amount_specified: int,
    limit: nat,
) -> Result<(nat, nat, SwapWalk), Error> {
    if amount_specified == 0 {
        Err(Error::InvalidAmount)
    } else if pool.total_raw_liquidity == 0 {
        Err(Error::InsufficientLiquidity)
    } else {
        match spec_price_limit(pool.slot0.sqrt_price_x96@, zero_for_one, limit) {
            Err(e) => Err(e),
            Ok(l) => {
                let exact_input = amount_specified > 0;
                let abs: nat = if amount_specified > 0 { amount_specified as nat } else { (-amount_specified) as nat };
                let w0 = SwapWalk {
                    sqrt_price: pool.slot0.sqrt_price_x96@,
                    tick: pool.slot0.tick as int,
                    liquidity: pool.liquidity as nat,
                    remaining: abs,
                    calculated: 0,
                };
                finish_walk(spec_swap_walk(pool.ticks.ticks@, pool.tick_spacing as int, pool.fee as nat, zero_for_one,
                    exact_input, l, w0, MAX_SWAP_STEPS as nat), exact_input, abs)
            },
        }
    }
}

/// The fee bookkeeping of a swap walk: the total fee charged (saturating), the protocol fees
/// of both tokens, the global fee growth of both tokens, and the tick records.
#[verifier::ext_equal]
pub struct SwapBooks {
    pub total_fee: nat,
    pub protocol0: nat,
    pub protocol1: nat,
    pub growth0: nat,
    pub growth1: nat,
    pub ticks: Map<i32, TickInfo>,
}

/// The 256-bit number with value `v`.
pub open spec fn u256_of(v: nat) -> U256 {
    U256 { hi: (v / crate::u256::b128()) as u128, lo: (v % crate::u256::b128()) as u128 }
}

/// `u256_of(v)` has value `v` below 2^256.
pub proof fn lemma_u256_of(v: nat)
    requires
        v < crate::u256::b256(),
    ensures
        u256_of(v)@ == v,
{
    let b = crate::u256::b128();
    vstd::arithmetic::div_mod::lemma_fundamental_div_mod(v as int, b as int);
    vstd::arithmetic::div_mod::lemma_div_is_ordered(v as int, (b * b) as int, b as int);
    vstd::arithmetic::div_mod::lemma_div_by_multiple(b as int, b as int);
    vstd::arithmetic::div_mod::lemma_div_plus_one(v as int, b as int);
    assert(v / b <= b);
    if v / b == b {
        assert(b * b <= v) by (nonlinear_arith) requires v / b == b, v >= b * (v / b);
    }
}

/// A tick record after crossing at global fee growth `(g0, g1)`: each outside growth
/// becomes `global - outside` modulo 2^256.
pub open spec fn spec_crossed_tick(t: TickInfo, g0: nat, g1: nat) -> TickInfo {
    TickInfo {
        fee_growth_outside_0_x128: u256_of(crate::positions::wsub(g0, t.fee_growth_outside_0_x128@)),
        fee_growth_outside_1_x128: u256_of(crate::positions::wsub(g1, t.fee_growth_outside_1_x128@)),
        initialized: t.initialized,
        liquidity_gross: t.liquidity_gross,
        liquidity_net: t.liquidity_net,
    }
}

/// The books after one step of the walk from `w` (see `spec_swap_iteration`): the step fee is
/// added to the total, its protocol share `fee * fraction / FEE_DENOMINATOR` to the input
/// token's protocol fees, the rest per unit of the step's liquidity (`* 2^128`) to the input
/// token's fee growth, and a reached initialized tick is crossed at the new growth.
#[verifier::opaque]
pub open spec fn spec_books_step(
    spacing: int,
    fee: nat,
    fraction: nat,
    zero_for_one: bool,
    exact_input: bool,
    limit: nat,
    w: SwapWalk,
    b: SwapBooks,
) -> SwapBooks {
    let (next_tick, initialized) = spec_next_initialized_tick(b.ticks, w.tick, spacing, zero_for_one);
    let next_price = spec_sqrt_ratio_at_tick(next_tick);
    let target = if zero_for_one {
        if next_price < limit { limit } else { next_price }
    } else {
        if next_price > limit { limit } else { next_price }
    };
    match spec_compute_swap_step(w.sqrt_price, target, w.liquidity, w.remaining, fee, zero_for_one, exact_input) {
        Err(_) => b,
        Ok((next, _, _, fee_amount)) => {
            let cut = (fee_amount as nat * fraction) / (FEE_DENOMINATOR as nat);
            let lp = (fee_amount - cut) as nat;
            let delta: nat = if lp == 0 || w.liquidity == 0 { 0 } else { (lp * crate::u256::b128()) / w.liquidity };
            let g0 = if zero_for_one { (b.growth0 + delta) % crate::u256::b256() } else { b.growth0 };
            let g1 = if zero_for_one { b.growth1 } else { (b.growth1 + delta) % crate::u256::b256() };
            let c = floor_div(next_tick, spacing);
            SwapBooks {
                total_fee: sat_add_u128(b.total_fee, fee_amount as nat),
                protocol0: if zero_for_one { sat_add_u128(b.protocol0, cut) } else { b.protocol0 },
                protocol1: if zero_for_one { b.protocol1 } else { sat_add_u128(b.protocol1, cut) },
                growth0: g0,
                growth1: g1,
                ticks: if next == next_price && initialized {
                    b.ticks.insert(c as i32, spec_crossed_tick(tick_at(b.ticks, c), g0, g1))
                } else {
                    b.ticks
                },
            }
        },
    }
}

/// The books along the walk of `spec_swap_walk`.
pub open spec fn spec_books_walk(
    m: Map<i32, TickInfo>,
    spacing: int,
    fee: nat,
    fraction: nat,
    zero_for_one: bool,
    exact_input: bool,
    limit: nat,
    w: SwapWalk,
    b: SwapBooks,
    fuel: nat,
) -> SwapBooks
    decreases fuel,
{
    if w.remaining == 0 || w.sqrt_price == limit || fuel == 0 {
        b
    } else {
        match spec_swap_iteration(m, spacing, fee, zero_for_one, exact_input, limit, w) {
            Err(_) => b,
            Ok(w2) => spec_books_walk(m, spacing, fee, fraction, zero_for_one, exact_input, limit, w2,
                spec_books_step(spacing, fee, fraction, zero_for_one, exact_input, limit, w, b), (fuel - 1) as nat),
        }
    }
}

/// The books of a pool before a swap.
pub open spec fn books_of(pool: ConcentratedLiquidityPool, total_fee: nat, protocol: ProtocolFees) -> SwapBooks {
    SwapBooks {
        total_fee,
        protocol0: protocol.token0 as nat,
        protocol1: protocol.token1 as nat,
        growth0: pool.fee_growth_global_0_x128@,
        growth1: pool.fee_growth_global_1_x128@,
        ticks: pool.ticks.ticks@,
    }
}

/// The books after a swap of `amount_specified` against a pool (see `spec_swap_outcome`).
pub open spec fn spec_swap_books(
    pool: ConcentratedLiquidityPool,
    zero_for_one: bool,
    amount_specified: int,
    limit: nat,
) -> SwapBooks {
    let b0 = books_of(pool, 0, pool.protocol_fees);
    if amount_specified == 0 || pool.total_raw_liquidity == 0 {
        b0
    } else {
        match spec_price_limit(pool.slot0.sqrt_price_x96@, zero_for_one, limit) {
            Err(_) => b0,
            Ok(l) => {
                let abs: nat = if amount_specified > 0 { amount_specified as nat } else { (-amount_specified) as nat };
                let w0 = SwapWalk {
                    sqrt_price: pool.slot0.sqrt_price_x96@,
                    tick: pool.slot0.tick as int,
                    liquidity: pool.liquidity as nat,
                    remaining: abs,
                    calculated: 0,
                };
                spec_books_walk(pool.ticks.ticks@, pool.tick_spacing as int, pool.fee as nat,
                    pool.protocol_fee_fraction as nat, zero_for_one, amount_specified > 0, l, w0, b0, MAX_SWAP_STEPS as nat)
            },
        }
    }
}

impl ConcentratedLiquidityPool {
    /// One swap step (see `spec_compute_swap_step`).
    pub fn compute_swap_step(
        sqrt_current: &U256,
        sqrt_target: &U256,
        liquidity: u128,
        amount_remaining: u128,
        fee_pips: u32,
        zero_for_one: bool,
        exact_input: bool,
    ) -> (r: Result<SwapStep, Error>)
        requires
            liquidity == 0 || fee_pips <= FEE_DENOMINATOR,
        ensures
            r matches Ok(s) ==> spec_compute_swap_step(sqrt_current@, sqrt_target@, liquidity as nat,
                amount_remaining as nat, fee_pips as nat, zero_for_one, exact_input)
                == Ok::<(nat, u128, u128, u128), Error>((s.sqrt_next@, s.amount_in, s.amount_out, s.fee_amount)),
            r matches Err(e) ==> spec_compute_swap_step(sqrt_current@, sqrt_target@, liquidity as nat,
                amount_remaining as nat, fee_pips as nat, zero_for_one, exact_input)
                == Err::<(nat, u128, u128, u128), Error>(e),
    {
        reveal(spec_compute_swap_step);
        if liquidity == 0 {
            return Ok(SwapStep { sqrt_next: *sqrt_target, amount_in: 0, amount_out: 0, fee_amount: 0 });
        }
        let fee = fee_pips as u128;
        let fee_complement = FEE_DENOMINATOR - fee;
        if exact_input {
            let amount_remaining_less_fee = mul_div_u128(amount_remaining, fee_complement, FEE_DENOMINATOR, false)?;
            let amount_in_to_target = if zero_for_one {
                amount0_delta(sqrt_target, sqrt_current, liquidity, true)?
            } else {
                amount1_delta(sqrt_current, sqrt_target, liquidity, true)
            };
            let sqrt_next = if amount_remaining_less_fee >= amount_in_to_target {
                *sqrt_target
            } else {
                let computed = get_next_sqrt_price_from_input(sqrt_current, liquidity, amount_remaining_less_fee, zero_for_one)?;
                if zero_for_one {
                    computed.max(sqrt_target)
                } else {
                    computed.min(sqrt_target)
                }
            };
            let max_reached = sqrt_next.eq(sqrt_target);
            let amount_in = if zero_for_one {
                amount0_delta(&sqrt_next, sqrt_current, liquidity, true)?
            } else {
                amount1_delta(sqrt_current, &sqrt_next, liquidity, true)
            };
            let amount_out = if zero_for_one {
                amount1_delta(&sqrt_next, sqrt_current, liquidity, false)
            } else {
                amount0_delta(sqrt_current, &sqrt_next, liquidity, false)?
            };
            let fee_amount = if max_reached {
                mul_div_u128(amount_in, fee, fee_complement, true)?
            } else {
                amount_remaining.saturating_sub(amount_in)
            };
            Ok(SwapStep { sqrt_next, amount_in, amount_out, fee_amount })
        } else {
            let amount_out_to_target = if zero_for_one {
                amount1_delta(sqrt_target, sqrt_current, liquidity, false)
            } else {
                amount0_delta(sqrt_current, sqrt_target, liquidity, false)?
            };
            let sqrt_next = if amount_remaining >= amount_out_to_target {
                *sqrt_target
            } else {
                let computed = get_next_sqrt_price_from_output(sqrt_current, liquidity, amount_remaining, zero_for_one)?;
                if zero_for_one {
                    computed.max(sqrt_target)
                } else {
                    computed.min(sqrt_target)
                }
            };
            let amount_in = if zero_for_one {
                amount0_delta(&sqrt_next, sqrt_current, liquidity, true)?
            } else {
                amount1_delta(sqrt_current, &sqrt_next, liquidity, true)
            };
            let mut amount_out = if zero_for_one {
                amount1_delta(&sqrt_next, sqrt_current, liquidity, false)
            } else {
                amount0_delta(sqrt_current, &sqrt_next, liquidity, false)?
            };
            if amount_out > amount_remaining {
                amount_out = amount_remaining;
            }
            let fee_amount = mul_div_u128(amount_in, fee, fee_complement, true)?;
            Ok(SwapStep { sqrt_next, amount_in, amount_out, fee_amount })
        }
    }
}

impl ConcentratedLiquidityPool {
    /// The effective price limit of a swap (see `spec_price_limit`).
    pub fn validate_price_limit(slot: &Slot0, zero_for_one: bool, sqrt_price_limit_x96: &U256) -> (r: Result<U256, Error>)
        ensures
            r matches Ok(v) ==> spec_price_limit(slot.sqrt_price_x96@, zero_for_one, sqrt_price_limit_x96@) == Ok::<nat, Error>(v@),
            r matches Err(e) ==> spec_price_limit(slot.sqrt_price_x96@, zero_for_one, sqrt_price_limit_x96@) == Err::<nat, Error>(e),
    {
        let min = min_sqrt_ratio();
        let max = max_sqrt_ratio();
        let limit = if sqrt_price_limit_x96.is_zero() {
            if zero_for_one {
                min.add(&U256::one())
            } else {
                max.sub(&U256::one())
            }
        } else {
            *sqrt_price_limit_x96
        };
        if zero_for_one {
            if limit.le(&min) || limit.ge(&slot.sqrt_price_x96) {
                return Err(Error::InvalidPriceLimit);
            }
        } else if limit.ge(&max) || limit.le(&slot.sqrt_price_x96) {
            return Err(Error::InvalidPriceLimit);
        }
        Ok(limit)
    }

    /// Active liquidity after crossing a tick (see `spec_cross_liquidity`).
    fn liquidity_after_crossing(liquidity: u128, liquidity_net: i128, zero_for_one: bool) -> (r: Result<u128, Error>)
        ensures
            r matches Ok(v) ==> spec_cross_liquidity(liquidity as nat, liquidity_net as int, zero_for_one) == Ok::<nat, Error>(v as nat),
            r matches Err(e) ==> spec_cross_liquidity(liquidity as nat, liquidity_net as int, zero_for_one) == Err::<nat, Error>(e),
    {
        if zero_for_one && liquidity_net == i128::MIN {
            return Err(Error::LiquidityOverflow);
        }
        let net = if zero_for_one { -liquidity_net } else { liquidity_net };
        if net < 0 {
            let dec = Self::abs_i128(net);
            if liquidity < dec {
                return Err(Error::LiquidityUnderflow);
            }
            Ok(liquidity - dec)
        } else {
            Ok(liquidity.saturating_add(net as u128))
        }
    }

    /// Adds the liquidity providers' share of a step fee to the global fee growth of the
    /// input token: `fee * 2^128 / liquidity`, wrapping modulo 2^256; nothing when either is 0.
    pub fn add_fee_growth_global(&mut self, zero_for_one: bool, fee_amount_for_lp: u128, liquidity: u128)
        ensures
            ({
                let delta: nat = if fee_amount_for_lp == 0 || liquidity == 0 { 0 } else {
                    (fee_amount_for_lp as nat * crate::u256::b128()) / (liquidity as nat) };
                &&& zero_for_one ==> final(self).fee_growth_global_0_x128@ == (old(self).fee_growth_global_0_x128@ + delta) % crate::u256::b256()
                &&& zero_for_one ==> final(self).fee_growth_global_1_x128 == old(self).fee_growth_global_1_x128
                &&& !zero_for_one ==> final(self).fee_growth_global_1_x128@ == (old(self).fee_growth_global_1_x128@ + delta) % crate::u256::b256()
                &&& !zero_for_one ==> final(self).fee_growth_global_0_x128 == old(self).fee_growth_global_0_x128
            }),
            final(self).ticks == old(self).ticks,
            final(self).slot0 == old(self).slot0,
            final(self).liquidity == old(self).liquidity,
            final(self).protocol_fees == old(self).protocol_fees,
            final(self).fee == old(self).fee,
            final(self).tick_spacing == old(self).tick_spacing,
            final(self).protocol_fee_fraction == old(self).protocol_fee_fraction,
            final(self).reserve0 == old(self).reserve0,
            final(self).reserve1 == old(self).reserve1,
            final(self).total_raw_liquidity == old(self).total_raw_liquidity,
            final(self).full_range_liquidity == old(self).full_range_liquidity,
            final(self).is_killed_deposit == old(self).is_killed_deposit,
            final(self).is_killed_swap == old(self).is_killed_swap,
    {
        if fee_amount_for_lp == 0 || liquidity == 0 {
            proof {
                assert(old(self).fee_growth_global_0_x128@ % crate::u256::b256() == old(self).fee_growth_global_0_x128@) by {
                    crate::u256::lemma_u256_bound(old(self).fee_growth_global_0_x128);
                    vstd::arithmetic::div_mod::lemma_small_mod(old(self).fee_growth_global_0_x128@ as nat, crate::u256::b256());
                }
                assert(old(self).fee_growth_global_1_x128@ % crate::u256::b256() == old(self).fee_growth_global_1_x128@) by {
                    crate::u256::lemma_u256_bound(old(self).fee_growth_global_1_x128);
                    vstd::arithmetic::div_mod::lemma_small_mod(old(self).fee_growth_global_1_x128@ as nat, crate::u256::b256());
                }
            }
            return;
        }
        let growth_delta = fee_growth_delta_x128(fee_amount_for_lp, liquidity);
        if zero_for_one {
            self.fee_growth_global_0_x128 = wrapping_add_u256(&self.fee_growth_global_0_x128, &growth_delta);
        } else {
            self.fee_growth_global_1_x128 = wrapping_add_u256(&self.fee_growth_global_1_x128, &growth_delta);
        }
    }
}

/// The walk state of the exec loop as a spec value.
pub open spec fn walk_of(slot: Slot0, liquidity: u128, remaining: u128, calculated: u128) -> SwapWalk {
    SwapWalk {
        sqrt_price: slot.sqrt_price_x96@,
        tick: slot.tick as int,
        liquidity: liquidity as nat,
        remaining: remaining as nat,
        calculated: calculated as nat,
    }
}

/// Two tick maps agree on every tick's gross and net liquidity.
pub open spec fn same_liquidity(m1: Map<i32, TickInfo>, m2: Map<i32, TickInfo>) -> bool {
    forall|c: int| #![trigger tick_at(m1, c)] tick_at(m1, c).liquidity_gross == tick_at(m2, c).liquidity_gross
        && tick_at(m1, c).liquidity_net == tick_at(m2, c).liquidity_net
}

/// `floor(a * b / d) <= a` when `b <= d`.
proof fn lemma_share_le(a: nat, b: nat, d: nat)
    requires
        b <= d,
        d > 0,
    ensures
        (a * b) / d <= a,
{
    assert(a * b <= a * d) by (nonlinear_arith) requires b <= d;
    vstd::arithmetic::div_mod::lemma_div_is_ordered((a * b) as int, (a * d) as int, d as int);
    vstd::arithmetic::div_mod::lemma_div_by_multiple(a as int, d as int);
}

/// Running totals of a swap walk.
pub struct SwapProgress {
    pub slot: Slot0,
    pub liquidity: u128,
    pub amount_remaining: u128,
    pub amount_calculated: u128,
    pub total_fee_amount: u128,
    pub protocol_fees: ProtocolFees,
}

/// The walk depends on the tick records only through their gross and net liquidity.
pub proof fn lemma_iteration_congruent(
    m1: Map<i32, TickInfo>,
    m2: Map<i32, TickInfo>,
    spacing: int,
    fee: nat,
    zero_for_one: bool,
    exact_input: bool,
    limit: nat,
    w: SwapWalk,
)
    requires
        same_liquidity(m1, m2),
    ensures
        spec_swap_iteration(m1, spacing, fee, zero_for_one, exact_input, limit, w)
            == spec_swap_iteration(m2, spacing, fee, zero_for_one, exact_input, limit, w),
{
    reveal(spec_swap_iteration);
    assert forall|c: int| #[trigger] initialized_at(m1, c) == initialized_at(m2, c) by {
        assert(tick_at(m1, c).liquidity_gross == tick_at(m2, c).liquidity_gross);
    }
    crate::ticks::lemma_next_tick_congruent(m1, m2, w.tick, spacing, zero_for_one);
    let (next_tick, _) = spec_next_initialized_tick(m1, w.tick, spacing, zero_for_one);
    assert(tick_at(m1, floor_div(next_tick, spacing)).liquidity_net == tick_at(m2, floor_div(next_tick, spacing)).liquidity_net);
}

impl ConcentratedLiquidityPool {
    /// Books one step's fee: the protocol's share `fee * fraction / FEE_DENOMINATOR` goes to
    /// the input token's protocol fees, the rest to its fee growth per unit of `liquidity`.
    fn book_step_fee(&mut self, p: &mut SwapProgress, zero_for_one: bool, fee_amount: u128, liquidity: u128)
        requires
            old(self).protocol_fee_fraction <= FEE_DENOMINATOR,
        ensures
            ({
                let cut = (fee_amount as nat * old(self).protocol_fee_fraction as nat) / (FEE_DENOMINATOR as nat);
                let lp = (fee_amount - cut) as nat;
                let delta: nat = if lp == 0 || liquidity == 0 { 0 } else { (lp * crate::u256::b128()) / (liquidity as nat) };
                &&& cut <= fee_amount
                &&& final(p).total_fee_amount as nat == sat_add_u128(old(p).total_fee_amount as nat, fee_amount as nat)
                &&& final(p).protocol_fees.token0 as nat == (if zero_for_one {
                        sat_add_u128(old(p).protocol_fees.token0 as nat, cut) } else { old(p).protocol_fees.token0 as nat })
                &&& final(p).protocol_fees.token1 as nat == (if zero_for_one {
                        old(p).protocol_fees.token1 as nat } else { sat_add_u128(old(p).protocol_fees.token1 as nat, cut) })
                &&& final(self).fee_growth_global_0_x128@ == (if zero_for_one {
                        (old(self).fee_growth_global_0_x128@ + delta) % crate::u256::b256() } else { old(self).fee_growth_global_0_x128@ })
                &&& final(self).fee_growth_global_1_x128@ == (if zero_for_one {
                        old(self).fee_growth_global_1_x128@ } else { (old(self).fee_growth_global_1_x128@ + delta) % crate::u256::b256() })
            }),
            final(p).slot == old(p).slot,
            final(p).liquidity == old(p).liquidity,
            final(p).amount_remaining == old(p).amount_remaining,
            final(p).amount_calculated == old(p).amount_calculated,
            final(self).ticks == old(self).ticks,
            final(self).slot0 == old(self).slot0,
            final(self).liquidity == old(self).liquidity,
            final(self).protocol_fees == old(self).protocol_fees,
            final(self).fee == old(self).fee,
            final(self).tick_spacing == old(self).tick_spacing,
            final(self).protocol_fee_fraction == old(self).protocol_fee_fraction,
            final(self).reserve0 == old(self).reserve0,
            final(self).reserve1 == old(self).reserve1,
            final(self).total_raw_liquidity == old(self).total_raw_liquidity,
            final(self).full_range_liquidity == old(self).full_range_liquidity,
            final(self).is_killed_deposit == old(self).is_killed_deposit,
            final(self).is_killed_swap == old(self).is_killed_swap,
    {
        let fraction = self.protocol_fee_fraction as u128;
        proof {
            lemma_share_le(fee_amount as nat, fraction as nat, FEE_DENOMINATOR as nat);
        }
        let protocol_cut = match mul_div_u128(fee_amount, fraction, FEE_DENOMINATOR, false) {
            Ok(v) => v,
            Err(_) => 0,
        };
        let fee_for_lp = fee_amount - protocol_cut;
        if zero_for_one {
            p.protocol_fees.token0 = p.protocol_fees.token0.saturating_add(protocol_cut);
        } else {
            p.protocol_fees.token1 = p.protocol_fees.token1.saturating_add(protocol_cut);
        }
        p.total_fee_amount = p.total_fee_amount.saturating_add(fee_amount);
        self.add_fee_growth_global(zero_for_one, fee_for_lp, liquidity);
    }
}

impl ConcentratedLiquidityPool {
    /// One step of the swap walk on the running totals `p` (see `spec_swap_iteration`); a
    /// real step (`!dry_run`) also books the fee split and crosses the reached tick.
    #[verifier::rlimit(100)]
    #[verifier::spinoff_prover]
    fn swap_step(
        &mut self,
        p: &mut SwapProgress,
        zero_for_one: bool,
        exact_input: bool,
        price_limit: &U256,
        dry_run: bool,
    ) -> (r: Result<(), Error>)
        requires
            old(self).wf(),
            MIN_TICK <= old(p).slot.tick <= MAX_TICK,
        ensures
            r matches Err(e) ==> spec_swap_iteration(old(self).ticks.ticks@, old(self).tick_spacing as int,
                old(self).fee as nat, zero_for_one, exact_input, price_limit@,
                walk_of(old(p).slot, old(p).liquidity, old(p).amount_remaining, old(p).amount_calculated))
                == Err::<SwapWalk, Error>(e),
            r is Ok ==> spec_swap_iteration(old(self).ticks.ticks@, old(self).tick_spacing as int,
                old(self).fee as nat, zero_for_one, exact_input, price_limit@,
                walk_of(old(p).slot, old(p).liquidity, old(p).amount_remaining, old(p).amount_calculated))
                == Ok::<SwapWalk, Error>(walk_of(final(p).slot, final(p).liquidity, final(p).amount_remaining, final(p).amount_calculated)),
            r is Ok ==> MIN_TICK <= final(p).slot.tick <= MAX_TICK,
            !dry_run && r is Ok ==> books_of(*final(self), final(p).total_fee_amount as nat, final(p).protocol_fees)
                == spec_books_step(old(self).tick_spacing as int, old(self).fee as nat, old(self).protocol_fee_fraction as nat,
                    zero_for_one, exact_input, price_limit@,
                    walk_of(old(p).slot, old(p).liquidity, old(p).amount_remaining, old(p).amount_calculated),
                    books_of(*old(self), old(p).total_fee_amount as nat, old(p).protocol_fees)),
            final(self).wf(),
            same_liquidity(final(self).ticks.ticks@, old(self).ticks.ticks@),
            dry_run ==> *final(self) == *old(self),
            dry_run ==> final(p).total_fee_amount == old(p).total_fee_amount && final(p).protocol_fees == old(p).protocol_fees,
            final(p).protocol_fees.token0 >= old(p).protocol_fees.token0,
            final(p).protocol_fees.token1 >= old(p).protocol_fees.token1,
            final(p).total_fee_amount >= old(p).total_fee_amount,
            final(p).protocol_fees.token0 - old(p).protocol_fees.token0 <= final(p).total_fee_amount - old(p).total_fee_amount
                || final(p).total_fee_amount == u128::MAX,
            final(p).protocol_fees.token1 - old(p).protocol_fees.token1 <= final(p).total_fee_amount - old(p).total_fee_amount
                || final(p).total_fee_amount == u128::MAX,
            zero_for_one ==> final(p).protocol_fees.token1 == old(p).protocol_fees.token1,
            !zero_for_one ==> final(p).protocol_fees.token0 == old(p).protocol_fees.token0,
            final(self).slot0 == old(self).slot0,
            final(self).liquidity == old(self).liquidity,
            final(self).protocol_fees == old(self).protocol_fees,
            final(self).fee == old(self).fee,
            final(self).tick_spacing == old(self).tick_spacing,
            final(self).protocol_fee_fraction == old(self).protocol_fee_fraction,
            final(self).reserve0 == old(self).reserve0,
            final(self).reserve1 == old(self).reserve1,
            final(self).total_raw_liquidity == old(self).total_raw_liquidity,
            final(self).full_range_liquidity == old(self).full_range_liquidity,
            final(self).is_killed_deposit == old(self).is_killed_deposit,
            final(self).is_killed_swap == old(self).is_killed_swap,
    {
        reveal(spec_swap_iteration);
        reveal(spec_books_step);
        let ghost m0 = self.ticks.ticks@;
        let tick_spacing = self.tick_spacing;
        let fee = self.fee;
        let (next_tick, next_tick_initialized) = self.ticks.find_initialized_tick_in_word(p.slot.tick, tick_spacing, zero_for_one);
        let next_tick_price = match sqrt_ratio_at_tick(next_tick) {
            Ok(v) => v,
            Err(e) => {
                return Err(e);
            },
        };
        let sqrt_target = if zero_for_one {
            if next_tick_price.lt(price_limit) { *price_limit } else { next_tick_price }
        } else if next_tick_price.gt(price_limit) {
            *price_limit
        } else {
            next_tick_price
        };
        let sqrt_price_start = p.slot.sqrt_price_x96;
        let step = Self::compute_swap_step(&p.slot.sqrt_price_x96, &sqrt_target, p.liquidity, p.amount_remaining, fee,
            zero_for_one, exact_input)?;
        if exact_input {
            p.amount_remaining = p.amount_remaining.saturating_sub(step.amount_in).saturating_sub(step.fee_amount);
            p.amount_calculated = p.amount_calculated.saturating_add(step.amount_out);
        } else {
            p.amount_remaining = p.amount_remaining.saturating_sub(step.amount_out);
            p.amount_calculated = p.amount_calculated.saturating_add(step.amount_in).saturating_add(step.fee_amount);
        }
        if !dry_run {
            let step_liquidity = p.liquidity;
            self.book_step_fee(p, zero_for_one, step.fee_amount, step_liquidity);
        }
        let ghost booked = *self;
        p.slot.sqrt_price_x96 = step.sqrt_next;
        if p.slot.sqrt_price_x96.eq(&next_tick_price) {
            if next_tick_initialized {
                let liquidity_net = if dry_run {
                    self.ticks.get_tick(next_tick, tick_spacing).liquidity_net
                } else {
                    let fg0 = self.fee_growth_global_0_x128;
                    let fg1 = self.fee_growth_global_1_x128;
                    let ghost before = self.ticks.ticks@;
                    let n = self.ticks.cross_tick(next_tick, tick_spacing, &fg0, &fg1);
                    proof {
                        let c0 = floor_div(next_tick as int, tick_spacing as int);
                        let t0 = tick_at(before, c0);
                        let nn = self.ticks.ticks@[c0 as i32];
                        let v0 = crate::positions::wsub(fg0@, t0.fee_growth_outside_0_x128@);
                        let v1 = crate::positions::wsub(fg1@, t0.fee_growth_outside_1_x128@);
                        lemma_u256_of(v0);
                        lemma_u256_of(v1);
                        crate::u256::lemma_u256_view_injective(nn.fee_growth_outside_0_x128, u256_of(v0));
                        crate::u256::lemma_u256_view_injective(nn.fee_growth_outside_1_x128, u256_of(v1));
                        assert(nn == spec_crossed_tick(t0, fg0@, fg1@));
                        crate::bitmap::lemma_floor_div_bounds(next_tick as int, tick_spacing as int);
                        assert(crate::ticks::in_i32(c0)) by {
                            if c0 < -0x8000_0000 {
                                assert((c0 + 1) * tick_spacing as int <= (c0 + 1)) by (nonlinear_arith)
                                    requires c0 + 1 < 0, tick_spacing >= 1;
                            }
                            if c0 >= 0x8000_0000 {
                                assert(c0 * tick_spacing as int >= c0) by (nonlinear_arith)
                                    requires c0 > 0, tick_spacing >= 1;
                            }
                        }
                        assert forall|c: int| #![trigger tick_at(self.ticks.ticks@, c)]
                            tick_at(self.ticks.ticks@, c).liquidity_gross == tick_at(before, c).liquidity_gross
                            && tick_at(self.ticks.ticks@, c).liquidity_net == tick_at(before, c).liquidity_net by {
                            if c == c0 {
                            } else {
                                if crate::ticks::in_i32(c) {
                                    assert(c as i32 != c0 as i32);
                                }
                            }
                        }
                    }
                    n
                };
                p.liquidity = Self::liquidity_after_crossing(p.liquidity, liquidity_net, zero_for_one)?;
            }
            p.slot.tick = if zero_for_one {
                if next_tick - 1 < MIN_TICK { MIN_TICK } else { next_tick - 1 }
            } else if next_tick > MAX_TICK {
                MAX_TICK
            } else {
                next_tick
            };
        } else if !p.slot.sqrt_price_x96.eq(&sqrt_price_start) {
            p.slot.tick = tick_at_sqrt_ratio(&p.slot.sqrt_price_x96)?;
        }
        Ok(())
    }

    /// The swap walk shared by simulation (`dry_run`) and the real swap. Returns
    /// `(amount_spec_used, amount_calculated, total_fee, final_slot, final_liquidity,
    /// protocol_fee_delta_0, protocol_fee_delta_1)`, as `spec_swap_outcome` describes.
    /// A simulation changes nothing; a real swap also credits fee growth and the protocol
    /// share of each step's fee, flips the outside fee growth of crossed ticks and stores the
    /// final price and liquidity. On an error the caller discards the pool.
    pub fn swap_loop(
        &mut self,
        zero_for_one: bool,
        amount_specified: i128,
        sqrt_price_limit_x96: &U256,
        dry_run: bool,
    ) -> (r: Result<(u128, u128, u128, Slot0, u128, u128, u128), Error>)
        requires
            old(self).wf(),
        ensures
            match spec_swap_outcome(*old(self), zero_for_one, amount_specified as int, sqrt_price_limit_x96@) {
                Err(e) => r == Err::<(u128, u128, u128, Slot0, u128, u128, u128), Error>(e),
                Ok((used, calc, w)) => r matches Ok(o) && o.0 as nat == used && o.1 as nat == calc
                    && o.3.sqrt_price_x96@ == w.sqrt_price && o.3.tick as int == w.tick && o.4 as nat == w.liquidity,
            },
            dry_run ==> *final(self) == *old(self),
            dry_run ==> (r matches Ok(o) ==> o.2 == 0 && o.5 == 0 && o.6 == 0),
            !dry_run ==> (r matches Ok(o) ==> {
                let bk = spec_swap_books(*old(self), zero_for_one, amount_specified as int, sqrt_price_limit_x96@);
                &&& final(self).fee_growth_global_0_x128@ == bk.growth0
                &&& final(self).fee_growth_global_1_x128@ == bk.growth1
                &&& final(self).ticks.ticks@ == bk.ticks
                &&& final(self).protocol_fees.token0 as nat == bk.protocol0
                &&& final(self).protocol_fees.token1 as nat == bk.protocol1
                &&& o.2 as nat == bk.total_fee
            }),
            !dry_run ==> (r matches Ok(o) ==> {
                &&& final(self).wf()
                &&& final(self).slot0 == o.3
                &&& final(self).liquidity == o.4
                &&& final(self).protocol_fees.token0 == old(self).protocol_fees.token0 + o.5
                &&& final(self).protocol_fees.token1 == old(self).protocol_fees.token1 + o.6
                &&& zero_for_one ==> o.6 == 0
                &&& !zero_for_one ==> o.5 == 0
                &&& o.5 <= o.2 && o.6 <= o.2
                &&& same_liquidity(final(self).ticks.ticks@, old(self).ticks.ticks@)
                &&& final(self).fee == old(self).fee
                &&& final(self).tick_spacing == old(self).tick_spacing
                &&& final(self).protocol_fee_fraction == old(self).protocol_fee_fraction
                &&& final(self).reserve0 == old(self).reserve0
                &&& final(self).reserve1 == old(self).reserve1
                &&& final(self).total_raw_liquidity == old(self).total_raw_liquidity
                &&& final(self).full_range_liquidity == old(self).full_range_liquidity
                &&& final(self).is_killed_deposit == old(self).is_killed_deposit
                &&& final(self).is_killed_swap == old(self).is_killed_swap
            }),
    {
        if amount_specified == 0 {
            return Err(Error::InvalidAmount);
        }
        let exact_input = amount_specified > 0;
        if self.total_raw_liquidity == 0 {
            return Err(Error::InsufficientLiquidity);
        }
        let price_limit = Self::validate_price_limit(&self.slot0, zero_for_one, sqrt_price_limit_x96)?;
        let old_protocol_fees = if dry_run { ProtocolFees { token0: 0, token1: 0 } } else { self.protocol_fees };
        let amount_abs = Self::abs_i128(amount_specified);
        let mut p = SwapProgress {
            slot: self.slot0,
            liquidity: self.liquidity,
            amount_remaining: amount_abs,
            amount_calculated: 0,
            total_fee_amount: 0,
            protocol_fees: old_protocol_fees,
        };
        let ghost pool0 = *old(self);
        let ghost m0 = old(self).ticks.ticks@;
        let ghost goal = spec_swap_walk(m0, pool0.tick_spacing as int, pool0.fee as nat, zero_for_one, exact_input,
            price_limit@, walk_of(p.slot, p.liquidity, p.amount_remaining, p.amount_calculated), MAX_SWAP_STEPS as nat);
        let ghost books_goal = spec_books_walk(m0, pool0.tick_spacing as int, pool0.fee as nat,
            pool0.protocol_fee_fraction as nat, zero_for_one, exact_input, price_limit@,
            walk_of(p.slot, p.liquidity, p.amount_remaining, p.amount_calculated),
            books_of(pool0, 0, pool0.protocol_fees), MAX_SWAP_STEPS as nat);
        let mut fuel: u64 = MAX_SWAP_STEPS;
        while p.amount_remaining > 0 && !p.slot.sqrt_price_x96.eq(&price_limit)
            invariant
                pool0 == *old(self),
                !dry_run ==> spec_books_walk(m0, pool0.tick_spacing as int, pool0.fee as nat,
                    pool0.protocol_fee_fraction as nat, zero_for_one, exact_input, price_limit@,
                    walk_of(p.slot, p.liquidity, p.amount_remaining, p.amount_calculated),
                    books_of(*self, p.total_fee_amount as nat, p.protocol_fees), fuel as nat) == books_goal,
                !dry_run ==> spec_swap_books(pool0, zero_for_one, amount_specified as int, sqrt_price_limit_x96@) == books_goal,
                m0 == pool0.ticks.ticks@,
                pool0.wf(),
                self.wf(),
                same_liquidity(self.ticks.ticks@, m0),
                exact_input == (amount_specified > 0),
                MIN_TICK <= p.slot.tick <= MAX_TICK,
                spec_swap_walk(m0, pool0.tick_spacing as int, pool0.fee as nat, zero_for_one, exact_input, price_limit@,
                    walk_of(p.slot, p.liquidity, p.amount_remaining, p.amount_calculated), fuel as nat) == goal,
                spec_swap_outcome(pool0, zero_for_one, amount_specified as int, sqrt_price_limit_x96@)
                    == finish_walk(goal, exact_input, amount_abs as nat),
                amount_abs as int == (if amount_specified > 0 { amount_specified as int } else { -(amount_specified as int) }),
                dry_run ==> *self == pool0,
                dry_run ==> p.total_fee_amount == 0 && p.protocol_fees == old_protocol_fees
                    && old_protocol_fees.token0 == 0 && old_protocol_fees.token1 == 0,
                !dry_run ==> old_protocol_fees == pool0.protocol_fees,
                p.protocol_fees.token0 >= old_protocol_fees.token0,
                p.protocol_fees.token1 >= old_protocol_fees.token1,
                p.protocol_fees.token0 - old_protocol_fees.token0 <= p.total_fee_amount,
                p.protocol_fees.token1 - old_protocol_fees.token1 <= p.total_fee_amount,
                zero_for_one ==> p.protocol_fees.token1 == old_protocol_fees.token1,
                !zero_for_one ==> p.protocol_fees.token0 == old_protocol_fees.token0,
                self.slot0 == pool0.slot0,
                self.liquidity == pool0.liquidity,
                self.protocol_fees == pool0.protocol_fees,
                self.fee == pool0.fee,
                self.tick_spacing == pool0.tick_spacing,
                self.protocol_fee_fraction == pool0.protocol_fee_fraction,
                self.reserve0 == pool0.reserve0,
                self.reserve1 == pool0.reserve1,
                self.total_raw_liquidity == pool0.total_raw_liquidity,
                self.full_range_liquidity == pool0.full_range_liquidity,
                self.is_killed_deposit == pool0.is_killed_deposit,
                self.is_killed_swap == pool0.is_killed_swap,
            decreases fuel,
        {
            let ghost w = walk_of(p.slot, p.liquidity, p.amount_remaining, p.amount_calculated);
            let ghost fuel0 = fuel;
            let ghost cur = self.ticks.ticks@;
            if fuel == 0 {
                return Err(Error::InsufficientLiquidity);
            }
            proof {
                lemma_iteration_congruent(cur, m0, pool0.tick_spacing as int, pool0.fee as nat, zero_for_one,
                    exact_input, price_limit@, w);
            }
            fuel = fuel - 1;
            match self.swap_step(&mut p, zero_for_one, exact_input, &price_limit, dry_run) {
                Ok(()) => {},
                Err(e) => {
                    return Err(e);
                },
            }
            proof {
                assert forall|c: int| #[trigger] tick_at(self.ticks.ticks@, c).liquidity_gross == tick_at(m0, c).liquidity_gross
                    && tick_at(self.ticks.ticks@, c).liquidity_net == tick_at(m0, c).liquidity_net by {
                    assert(tick_at(cur, c).liquidity_gross == tick_at(m0, c).liquidity_gross);
                }
            }
        }
        if !dry_run {
            self.protocol_fees = p.protocol_fees;
            self.liquidity = p.liquidity;
            self.slot0 = p.slot;
        }
        if !exact_input && p.amount_remaining > 0 {
            return Err(Error::InsufficientLiquidity);
        }
        let amount_spec_used = amount_abs.saturating_sub(p.amount_remaining);
        let pf_delta_0 = p.protocol_fees.token0 - old_protocol_fees.token0;
        let pf_delta_1 = p.protocol_fees.token1 - old_protocol_fees.token1;
        Ok((amount_spec_used, p.amount_calculated, p.total_fee_amount, p.slot, p.liquidity, pf_delta_0, pf_delta_1))
    }
}

/// Signed swap amounts (positive: paid by the user, negative: received) from the part of the
/// specified amount used and the computed amount.
pub open spec fn spec_signed_amounts(zero_for_one: bool, exact_input: bool, used: int, calculated: int) -> (int, int) {
    if zero_for_one {
        if exact_input { (used, -calculated) } else { (calculated, -used) }
    } else if exact_input {
        (-calculated, used)
    } else {
        (-used, calculated)
    }
}

/// The signed `(amount0, amount1)` of a swap; `LiquidityOverflow` when an amount does not fit
/// in `i128`.
pub open spec fn spec_swap_amounts(
    pool: ConcentratedLiquidityPool,
    zero_for_one: bool,
    amount_specified: int,
    limit: nat,
) -> Result<(i128, i128), Error> {
    match spec_swap_outcome(pool, zero_for_one, amount_specified, limit) {
        Err(e) => Err(e),
        Ok((used, calculated, _)) => if used > i128::MAX || calculated > i128::MAX {
            Err(Error::LiquidityOverflow)
        } else {
            let (a0, a1) = spec_signed_amounts(zero_for_one, amount_specified > 0, used as int, calculated as int);
            Ok((a0 as i128, a1 as i128))
        },
    }
}

/// A tracked reserve after a swap moved `amount` of its token (positive: into the pool), of
/// which `protocol_part` went to the protocol; `None` when it leaves the `u128` range.
pub open spec fn spec_reserve_after(reserve: nat, amount: int, protocol_part: nat) -> Option<nat> {
    if amount > 0 {
        if amount < protocol_part || reserve + amount - protocol_part > u128::MAX {
            None
        } else {
            Some((reserve + amount - protocol_part) as nat)
        }
    } else if amount < 0 {
        if reserve < -amount { None } else { Some((reserve + amount) as nat) }
    } else {
        Some(reserve)
    }
}

/// Why a tracked reserve cannot take a swap's flow of `amount` (positive: into the pool) of
/// which `protocol_part` goes to the protocol: `LiquidityUnderflow` when the protocol part
/// exceeds what came in or the reserve cannot pay out, `LiquidityOverflow` when it would pass
/// `u128::MAX`.
pub open spec fn spec_reserve_error(reserve: nat, amount: int, protocol_part: int) -> Option<Error> {
    if amount > 0 {
        if amount < protocol_part {
            Some(Error::LiquidityUnderflow)
        } else if reserve + amount - protocol_part > u128::MAX {
            Some(Error::LiquidityOverflow)
        } else {
            None
        }
    } else if amount < 0 && reserve < -amount {
        Some(Error::LiquidityUnderflow)
    } else {
        None
    }
}

/// Why the tracked reserves cannot take the flow `(a0, a1)` of a swap (see
/// `spec_reserve_error`; token0 is checked first), the protocol's part being what the fee
/// books add to its fees.
#[verifier::opaque]
pub open spec fn spec_swap_reserve_error(pool: ConcentratedLiquidityPool, zero_for_one: bool, amount_specified: int, limit: nat,
    a0: int, a1: int) -> Option<Error> {
    let bk = spec_swap_books(pool, zero_for_one, amount_specified, limit);
    match spec_reserve_error(pool.reserve0 as nat, a0, bk.protocol0 - pool.protocol_fees.token0) {
        Some(e) => Some(e),
        None => spec_reserve_error(pool.reserve1 as nat, a1, bk.protocol1 - pool.protocol_fees.token1),
    }
}

impl ConcentratedLiquidityPool {
    /// Converts unsigned swap amounts to the signed `(amount0, amount1)` pair.
    pub fn swap_amounts_signed(zero_for_one: bool, exact_input: bool, amount_spec_used: u128, amount_calculated: u128) -> (r: (i128, i128))
        requires
            amount_spec_used <= i128::MAX,
            amount_calculated <= i128::MAX,
        ensures
            (r.0 as int, r.1 as int) == spec_signed_amounts(zero_for_one, exact_input, amount_spec_used as int, amount_calculated as int),
    {
        let used = amount_spec_used as i128;
        let calculated = amount_calculated as i128;
        if zero_for_one {
            if exact_input { (used, -calculated) } else { (calculated, -used) }
        } else if exact_input {
            (-calculated, used)
        } else {
            (-used, calculated)
        }
    }

    /// The swap direction of token indexes: `true` for 0 -> 1; the rejection of
    /// `spec_direction_error` unless the indexes are 0 and 1 in some order.
    pub fn direction_from_indexes(in_idx: u32, out_idx: u32) -> (r: Result<bool, ContractError>)
        ensures
            spec_direction_error(in_idx, out_idx) matches Some(e) ==> r == Err::<bool, ContractError>(e),
            spec_direction_error(in_idx, out_idx) is None ==> r == Ok::<bool, ContractError>(in_idx == 0 && out_idx == 1),
    {
        if in_idx > 1 || out_idx > 1 {
            return Err(ContractError::Validation(ValidationError::TokenIndexOutOfBounds));
        }
        if in_idx == out_idx {
            return Err(ContractError::Validation(ValidationError::CannotSwapSameToken));
        }
        Ok(in_idx == 0 && out_idx == 1)
    }

    /// Simulates a swap and returns its signed amounts without changing the pool.
    pub fn simulate_swap_amounts(&mut self, zero_for_one: bool, amount_specified: i128, sqrt_price_limit_x96: &U256)
        -> (r: Result<(i128, i128), Error>)
        requires
            old(self).wf(),
        ensures
            *final(self) == *old(self),
            r == spec_swap_amounts(*old(self), zero_for_one, amount_specified as int, sqrt_price_limit_x96@),
    {
        let exact_input = amount_specified > 0;
        let (amount_spec_used, amount_calculated, _, _, _, _, _) = self.swap_loop(zero_for_one, amount_specified, sqrt_price_limit_x96, true)?;
        if amount_spec_used > i128::MAX as u128 || amount_calculated > i128::MAX as u128 {
            return Err(Error::LiquidityOverflow);
        }
        Ok(Self::swap_amounts_signed(zero_for_one, exact_input, amount_spec_used, amount_calculated))
    }

    /// Executes a swap on the pool: the walk of `swap_loop`, then the tracked reserves move by
    /// the token flow less the protocol share of the fee. Returns the signed amounts, the
    /// final state and the total fee charged. On an error the caller discards the pool.
    pub fn swap_internal(&mut self, zero_for_one: bool, amount_specified: i128, sqrt_price_limit_x96: &U256)
        -> (r: Result<(SwapResult, u128), Error>)
        requires
            old(self).wf(),
        ensures
            spec_swap_amounts(*old(self), zero_for_one, amount_specified as int, sqrt_price_limit_x96@) matches Err(e)
                ==> r == Err::<(SwapResult, u128), Error>(e),
            r matches Ok((res, total_fee)) ==> spec_swap_applied(*old(self), *final(self), zero_for_one,
                amount_specified as int, sqrt_price_limit_x96@, res, total_fee),
            r matches Ok((res, total_fee)) ==> same_liquidity(final(self).ticks.ticks@, old(self).ticks.ticks@),
            r matches Err(e) ==> (spec_swap_amounts(*old(self), zero_for_one, amount_specified as int, sqrt_price_limit_x96@) is Ok
                ==> (e == Error::LiquidityUnderflow || e == Error::LiquidityOverflow)),
            spec_swap_amounts(*old(self), zero_for_one, amount_specified as int, sqrt_price_limit_x96@) matches Ok((a0, a1)) ==> (
                match spec_swap_reserve_error(*old(self), zero_for_one, amount_specified as int, sqrt_price_limit_x96@, a0 as int, a1 as int) {
                    Some(e) => r == Err::<(SwapResult, u128), Error>(e),
                    None => r is Ok,
                }),
    {
        reveal(spec_swap_reserve_error);
        let exact_input = amount_specified > 0;
        let (amount_spec_used, amount_calculated, total_fee_amount, slot, liquidity, pf_delta_0, pf_delta_1) =
            self.swap_loop(zero_for_one, amount_specified, sqrt_price_limit_x96, false)?;
        if amount_spec_used > i128::MAX as u128 || amount_calculated > i128::MAX as u128 {
            return Err(Error::LiquidityOverflow);
        }
        let (amount0, amount1) = Self::swap_amounts_signed(zero_for_one, exact_input, amount_spec_used, amount_calculated);
        let mut res0 = self.reserve0;
        let mut res1 = self.reserve1;
        if amount0 > 0 {
            let paid = amount0 as u128;
            if paid < pf_delta_0 {
                return Err(Error::LiquidityUnderflow);
            }
            res0 = match res0.checked_add(paid - pf_delta_0) {
                Some(v) => v,
                None => {
                    return Err(Error::LiquidityOverflow);
                },
            };
        } else if amount0 < 0 {
            let sent = Self::abs_i128(amount0);
            if res0 < sent {
                return Err(Error::LiquidityUnderflow);
            }
            res0 = res0 - sent;
        }
        if amount1 > 0 {
            let paid = amount1 as u128;
            if paid < pf_delta_1 {
                return Err(Error::LiquidityUnderflow);
            }
            res1 = match res1.checked_add(paid - pf_delta_1) {
                Some(v) => v,
                None => {
                    return Err(Error::LiquidityOverflow);
                },
            };
        } else if amount1 < 0 {
            let sent = Self::abs_i128(amount1);
            if res1 < sent {
                return Err(Error::LiquidityUnderflow);
            }
            res1 = res1 - sent;
        }
        self.reserve0 = res0;
        self.reserve1 = res1;
        Ok((SwapResult { amount0, amount1, liquidity, sqrt_price_x96: slot.sqrt_price_x96, tick: slot.tick }, total_fee_amount))
    }
}

/// `after` is `before` once a swap with result `res` and total fee `total_fee` is applied: the
/// price, tick and liquidity the walk ended at, the fee books of `spec_swap_books`, and the
/// reserves moved by the token flow less the protocol's part; nothing else changes but the
/// outside fee growth of crossed ticks.
pub open spec fn spec_swap_applied(
    before: ConcentratedLiquidityPool,
    after: ConcentratedLiquidityPool,
    zero_for_one: bool,
    amount_specified: int,
    limit: nat,
    res: SwapResult,
    total_fee: u128,
) -> bool {
    let bk = spec_swap_books(before, zero_for_one, amount_specified, limit);
    &&& spec_swap_amounts(before, zero_for_one, amount_specified, limit) == Ok::<(i128, i128), Error>((res.amount0, res.amount1))
    &&& after.slot0.sqrt_price_x96 == res.sqrt_price_x96 && after.slot0.tick == res.tick
    &&& after.liquidity == res.liquidity
    &&& after.fee_growth_global_0_x128@ == bk.growth0
    &&& after.fee_growth_global_1_x128@ == bk.growth1
    &&& after.ticks.ticks@ == bk.ticks
    &&& after.protocol_fees.token0 as nat == bk.protocol0
    &&& after.protocol_fees.token1 as nat == bk.protocol1
    &&& total_fee as nat == bk.total_fee
    &&& after.protocol_fees.token0 >= before.protocol_fees.token0
    &&& after.protocol_fees.token1 >= before.protocol_fees.token1
    &&& zero_for_one ==> after.protocol_fees.token1 == before.protocol_fees.token1
    &&& !zero_for_one ==> after.protocol_fees.token0 == before.protocol_fees.token0
    &&& spec_reserve_after(before.reserve0 as nat, res.amount0 as int,
        (after.protocol_fees.token0 - before.protocol_fees.token0) as nat) == Some(after.reserve0 as nat)
    &&& spec_reserve_after(before.reserve1 as nat, res.amount1 as int,
        (after.protocol_fees.token1 - before.protocol_fees.token1) as nat) == Some(after.reserve1 as nat)
    &&& after.fee == before.fee
    &&& after.tick_spacing == before.tick_spacing
    &&& after.protocol_fee_fraction == before.protocol_fee_fraction
    &&& after.total_raw_liquidity == before.total_raw_liquidity
    &&& after.full_range_liquidity == before.full_range_liquidity
    &&& after.is_killed_deposit == before.is_killed_deposit
    &&& after.is_killed_swap == before.is_killed_swap
    &&& after.wf()
}

/// The amount the user receives from signed amounts: the negated amount of the output token;
/// `InvalidAmount` when it is positive.
pub open spec fn spec_received(amounts: (i128, i128), zero_for_one: bool) -> Result<u128, Error> {
    let out = if zero_for_one { amounts.1 } else { amounts.0 };
    if out > 0 { Err(Error::InvalidAmount) } else { Ok((-out) as u128) }
}

/// The amount the user pays from signed amounts: the amount of the input token;
/// `InvalidAmount` unless it is positive.
pub open spec fn spec_paid(amounts: (i128, i128), zero_for_one: bool) -> Result<u128, Error> {
    let inp = if zero_for_one { amounts.0 } else { amounts.1 };
    if inp <= 0 { Err(Error::InvalidAmount) } else { Ok(inp as u128) }
}

/// Why a pair of token indexes names no swap direction: an index other than 0 and 1
/// (`TokenIndexOutOfBounds`), or the same token twice (`CannotSwapSameToken`).
pub open spec fn spec_direction_error(in_idx: u32, out_idx: u32) -> Option<ContractError> {
    if in_idx > 1 || out_idx > 1 {
        Some(ContractError::Validation(ValidationError::TokenIndexOutOfBounds))
    } else if in_idx == out_idx {
        Some(ContractError::Validation(ValidationError::CannotSwapSameToken))
    } else {
        None
    }
}

/// What an exact-input swap of `in_amount` by token index pays out, with no price limit.
pub open spec fn spec_estimate_swap(pool: ConcentratedLiquidityPool, in_idx: u32, out_idx: u32, in_amount: u128)
    -> Result<u128, ContractError> {
    if spec_direction_error(in_idx, out_idx) is Some {
        Err(spec_direction_error(in_idx, out_idx)->Some_0)
    } else if in_amount > i128::MAX {
        Err(ContractError::Pool(Error::LiquidityOverflow))
    } else {
        let zero_for_one = in_idx == 0;
        match spec_swap_amounts(pool, zero_for_one, in_amount as int, 0) {
            Err(e) => Err(ContractError::Pool(e)),
            Ok(a) => match spec_received(a, zero_for_one) {
                Err(e) => Err(ContractError::Pool(e)),
                Ok(v) => Ok(v),
            },
        }
    }
}

/// What an exact-output swap of `out_amount` by token index costs, with no price limit.
pub open spec fn spec_estimate_swap_strict_receive(pool: ConcentratedLiquidityPool, in_idx: u32, out_idx: u32, out_amount: u128)
    -> Result<u128, ContractError> {
    if spec_direction_error(in_idx, out_idx) is Some {
        Err(spec_direction_error(in_idx, out_idx)->Some_0)
    } else if out_amount > i128::MAX {
        Err(ContractError::Pool(Error::LiquidityOverflow))
    } else {
        let zero_for_one = in_idx == 0;
        match spec_swap_amounts(pool, zero_for_one, -(out_amount as int), 0) {
            Err(e) => Err(ContractError::Pool(e)),
            Ok(a) => match spec_paid(a, zero_for_one) {
                Err(e) => Err(ContractError::Pool(e)),
                Ok(v) => Ok(v),
            },
        }
    }
}

impl ConcentratedLiquidityPool {
    /// The output of an exact-input swap by token index, without changing the pool.
    pub fn estimate_swap(&mut self, in_idx: u32, out_idx: u32, in_amount: u128) -> (r: Result<u128, ContractError>)
        requires
            old(self).wf(),
        ensures
            *final(self) == *old(self),
            r == spec_estimate_swap(*old(self), in_idx, out_idx, in_amount),
    {
        let zero_for_one = match Self::direction_from_indexes(in_idx, out_idx) {
            Ok(v) => v,
            Err(e) => {
                return Err(e);
            },
        };
        let amount_specified = match Self::u128_to_i128(in_amount) {
            Ok(v) => v,
            Err(e) => {
                return Err(ContractError::Pool(e));
            },
        };
        let (amount0, amount1) = match self.simulate_swap_amounts(zero_for_one, amount_specified, &U256::zero()) {
            Ok(v) => v,
            Err(e) => {
                return Err(ContractError::Pool(e));
            },
        };
        if zero_for_one {
            if amount1 > 0 {
                return Err(ContractError::Pool(Error::InvalidAmount));
            }
            Ok(Self::abs_i128(amount1))
        } else {
            if amount0 > 0 {
                return Err(ContractError::Pool(Error::InvalidAmount));
            }
            Ok(Self::abs_i128(amount0))
        }
    }

    /// The input of an exact-output swap by token index, without changing the pool.
    pub fn estimate_swap_strict_receive(&mut self, in_idx: u32, out_idx: u32, out_amount: u128) -> (r: Result<u128, ContractError>)
        requires
            old(self).wf(),
        ensures
            *final(self) == *old(self),
            r == spec_estimate_swap_strict_receive(*old(self), in_idx, out_idx, out_amount),
    {
        let zero_for_one = match Self::direction_from_indexes(in_idx, out_idx) {
            Ok(v) => v,
            Err(e) => {
                return Err(e);
            },
        };
        let out_amount_i128 = match Self::u128_to_i128(out_amount) {
            Ok(v) => v,
            Err(e) => {
                return Err(ContractError::Pool(e));
            },
        };
        let (amount0, amount1) = match self.simulate_swap_amounts(zero_for_one, -out_amount_i128, &U256::zero()) {
            Ok(v) => v,
            Err(e) => {
                return Err(ContractError::Pool(e));
            },
        };
        if zero_for_one {
            if amount0 <= 0 {
                return Err(ContractError::Pool(Error::InvalidAmount));
            }
            Ok(amount0 as u128)
        } else {
            if amount1 <= 0 {
                return Err(ContractError::Pool(Error::InvalidAmount));
            }
            Ok(amount1 as u128)
        }
    }

    /// Exact-input swap by token index: pays out what `estimate_swap` reports, which must be
    /// at least `out_min` (else `OutMinNotSatisfied`). Returns the amount out, the swap record
    /// and the total fee. `SwapKilled` while swaps are disabled. On an error the caller discards the pool.
    pub fn swap(&mut self, in_idx: u32, out_idx: u32, in_amount: u128, out_min: u128) -> (r: Result<(u128, SwapResult, u128), ContractError>)
        requires
            old(self).wf(),
        ensures
            spec_direction_error(in_idx, out_idx) matches Some(e) ==> r == Err::<(u128, SwapResult, u128), ContractError>(e),
            spec_direction_error(in_idx, out_idx) is None && in_amount > i128::MAX
                ==> r == Err::<(u128, SwapResult, u128), ContractError>(ContractError::Pool(Error::LiquidityOverflow)),
            spec_direction_error(in_idx, out_idx) is None && in_amount <= i128::MAX && old(self).is_killed_swap
                ==> r == Err::<(u128, SwapResult, u128), ContractError>(ContractError::Pool(Error::SwapKilled)),
            !old(self).is_killed_swap ==> (spec_estimate_swap(*old(self), in_idx, out_idx, in_amount) matches Err(e)
                ==> r == Err::<(u128, SwapResult, u128), ContractError>(e)),
            r matches Ok((out, res, _)) ==> {
                &&& !old(self).is_killed_swap
                &&& spec_estimate_swap(*old(self), in_idx, out_idx, in_amount) == Ok::<u128, ContractError>(out)
                &&& out >= out_min
                &&& spec_swap_amounts(*old(self), in_idx == 0, in_amount as int, 0) == Ok::<(i128, i128), Error>((res.amount0, res.amount1))
                &&& final(self).wf()
            },
            r matches Ok((_, res, total_fee)) ==> spec_swap_applied(*old(self), *final(self), in_idx == 0, in_amount as int, 0,
                res, total_fee),
            r matches Err(e) ==> (!old(self).is_killed_swap ==> (spec_estimate_swap(*old(self), in_idx, out_idx, in_amount) matches Ok(out)
                ==> (out < out_min && e == ContractError::Validation(ValidationError::OutMinNotSatisfied))
                || e == ContractError::Pool(Error::LiquidityUnderflow) || e == ContractError::Pool(Error::LiquidityOverflow))),
            !old(self).is_killed_swap && spec_direction_error(in_idx, out_idx) is None && in_amount <= i128::MAX ==> (
                spec_swap_amounts(*old(self), in_idx == 0, in_amount as int, 0) matches Ok((a0, a1)) ==> (
                match spec_swap_reserve_error(*old(self), in_idx == 0, in_amount as int, 0, a0 as int, a1 as int) {
                    Some(e) => r == Err::<(u128, SwapResult, u128), ContractError>(ContractError::Pool(e)),
                    None => match spec_received((a0, a1), in_idx == 0) {
                        Err(e) => r == Err::<(u128, SwapResult, u128), ContractError>(ContractError::Pool(e)),
                        Ok(out) => if out < out_min {
                            r == Err::<(u128, SwapResult, u128), ContractError>(ContractError::Validation(
                                ValidationError::OutMinNotSatisfied))
                        } else {
                            r matches Ok((o, _, _)) && o == out
                        },
                    },
                })),
    {
        let zero_for_one = match Self::direction_from_indexes(in_idx, out_idx) {
            Ok(v) => v,
            Err(e) => {
                return Err(e);
            },
        };
        let amount_specified = match Self::u128_to_i128(in_amount) {
            Ok(v) => v,
            Err(e) => {
                return Err(ContractError::Pool(e));
            },
        };
        if self.is_killed_swap {
            return Err(ContractError::Pool(Error::SwapKilled));
        }
        let (result, total_fee) = match self.swap_internal(zero_for_one, amount_specified, &U256::zero()) {
            Ok(v) => v,
            Err(e) => {
                return Err(ContractError::Pool(e));
            },
        };
        let amount_out = if zero_for_one {
            if result.amount1 > 0 {
                return Err(ContractError::Pool(Error::InvalidAmount));
            }
            Self::abs_i128(result.amount1)
        } else {
            if result.amount0 > 0 {
                return Err(ContractError::Pool(Error::InvalidAmount));
            }
            Self::abs_i128(result.amount0)
        };
        if amount_out < out_min {
            return Err(ContractError::Validation(ValidationError::OutMinNotSatisfied));
        }
        Ok((amount_out, result, total_fee))
    }

    /// Exact-output swap by token index: costs what `estimate_swap_strict_receive` reports,
    /// which must be at most `in_max` (else `InMaxNotSatisfied`). Returns the amount in, the
    /// swap record and the total fee. `SwapKilled` while swaps are disabled. On an error the caller discards the pool.
    pub fn swap_strict_receive(&mut self, in_idx: u32, out_idx: u32, out_amount: u128, in_max: u128)
        -> (r: Result<(u128, SwapResult, u128), ContractError>)
        requires
            old(self).wf(),
        ensures
            spec_direction_error(in_idx, out_idx) matches Some(e) ==> r == Err::<(u128, SwapResult, u128), ContractError>(e),
            spec_direction_error(in_idx, out_idx) is None && out_amount > i128::MAX
                ==> r == Err::<(u128, SwapResult, u128), ContractError>(ContractError::Pool(Error::LiquidityOverflow)),
            spec_direction_error(in_idx, out_idx) is None && out_amount <= i128::MAX && old(self).is_killed_swap
                ==> r == Err::<(u128, SwapResult, u128), ContractError>(ContractError::Pool(Error::SwapKilled)),
            !old(self).is_killed_swap ==> (spec_estimate_swap_strict_receive(*old(self), in_idx, out_idx, out_amount) is Err ==> r is Err),
            !old(self).is_killed_swap && spec_direction_error(in_idx, out_idx) is None && out_amount <= i128::MAX
                ==> (spec_swap_amounts(*old(self), in_idx == 0, -(out_amount as int), 0) matches Err(e)
                ==> r == Err::<(u128, SwapResult, u128), ContractError>(ContractError::Pool(e))),
            r matches Ok((inp, res, _)) ==> {
                &&& !old(self).is_killed_swap
                &&& spec_estimate_swap_strict_receive(*old(self), in_idx, out_idx, out_amount) == Ok::<u128, ContractError>(inp)
                &&& inp <= in_max
                &&& spec_swap_amounts(*old(self), in_idx == 0, -(out_amount as int), 0) == Ok::<(i128, i128), Error>((res.amount0, res.amount1))
                &&& final(self).wf()
            },
            r matches Ok((_, res, total_fee)) ==> spec_swap_applied(*old(self), *final(self), in_idx == 0, -(out_amount as int), 0,
                res, total_fee),
            r matches Err(e) ==> (!old(self).is_killed_swap ==> (spec_estimate_swap_strict_receive(*old(self), in_idx, out_idx, out_amount) matches Ok(inp)
                ==> (inp > in_max && e == ContractError::Validation(ValidationError::InMaxNotSatisfied))
                || e == ContractError::Pool(Error::LiquidityUnderflow) || e == ContractError::Pool(Error::LiquidityOverflow))),
            !old(self).is_killed_swap && spec_direction_error(in_idx, out_idx) is None && out_amount <= i128::MAX ==> (
                spec_swap_amounts(*old(self), in_idx == 0, -(out_amount as int), 0) matches Ok((a0, a1)) ==> (
                match spec_swap_reserve_error(*old(self), in_idx == 0, -(out_amount as int), 0, a0 as int, a1 as int) {
                    Some(e) => r == Err::<(u128, SwapResult, u128), ContractError>(ContractError::Pool(e)),
                    None => {
                        let paid: int = if in_idx == 0 { a0 as int } else { a1 as int };
                        if paid <= 0 {
                            r == Err::<(u128, SwapResult, u128), ContractError>(ContractError::Pool(Error::InvalidAmount))
                        } else if paid > in_max {
                            r == Err::<(u128, SwapResult, u128), ContractError>(ContractError::Validation(
                                ValidationError::InMaxNotSatisfied))
                        } else {
                            r matches Ok((i, _, _)) && i == paid
                        }
                    },
                })),
    {
        let zero_for_one = match Self::direction_from_indexes(in_idx, out_idx) {
            Ok(v) => v,
            Err(e) => {
                return Err(e);
            },
        };
        let out_amount_i128 = match Self::u128_to_i128(out_amount) {
            Ok(v) => v,
            Err(e) => {
                return Err(ContractError::Pool(e));
            },
        };
        if self.is_killed_swap {
            return Err(ContractError::Pool(Error::SwapKilled));
        }
        let (result, total_fee) = match self.swap_internal(zero_for_one, -out_amount_i128, &U256::zero()) {
            Ok(v) => v,
            Err(e) => {
                return Err(ContractError::Pool(e));
            },
        };
        let amount_in = if zero_for_one {
            if result.amount0 <= 0 {
                return Err(ContractError::Pool(Error::InvalidAmount));
            }
            result.amount0 as u128
        } else {
            if result.amount1 <= 0 {
                return Err(ContractError::Pool(Error::InvalidAmount));
            }
            result.amount1 as u128
        };
        if amount_in > in_max {
            return Err(ContractError::Validation(ValidationError::InMaxNotSatisfied));
        }
        Ok((amount_in, result, total_fee))
    }
}

} // verus!
