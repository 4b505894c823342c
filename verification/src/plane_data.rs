//! The liquidity snapshot a pool publishes: its reserves, the reserves of the full-range
//! positions, and the exact amounts tradable over a ladder of price steps in each direction.

use vstd::prelude::*;

verus! {

use crate::bitmap::{compress_tick, floor_div, spec_clamp_tick};
use crate::constants::{MAX_TICK, MIN_TICK};
use crate::errors::ConcentratedPoolError as Error;
use crate::plane::{
    apply_liquidity_net, compute_amounts, exact_tick_steps_for_spacing, full_range_liquidity_net_adjustment,
    full_range_ticks_for_spacing, push_empty_steps, spec_exact_tick_steps_for_spacing,
    spec_full_range_ticks_for_spacing, step_target, PLANE_DATA_VERSION,
};
use crate::pool::ConcentratedLiquidityPool;
use crate::positions::spec_amounts_for_liquidity;
use crate::math::{amount0_delta_spec, amount1_delta_spec};
use crate::plane::{spec_apply_liquidity_net, spec_full_range_liquidity_net_adjustment};
use crate::tick_math::{sqrt_ratio_at_tick, spec_sqrt_ratio_at_tick};
use crate::ticks::{clamp_i128, saturating_add_i128, spec_find_initialized};
use crate::u256::U256;

/// `x` limited to the `i32` range.
pub open spec fn clamp_i32(x: int) -> int {
    if x > i32::MAX { i32::MAX as int } else if x < i32::MIN { i32::MIN as int } else { x }
}

/// `a - b` saturating at the `i32` bounds.
pub fn saturating_sub_i32(a: i32, b: i32) -> (r: i32)
    ensures
        r as int == clamp_i32(a - b),
{
    let v = a as i64 - b as i64;
    if v > i32::MAX as i64 { i32::MAX } else if v < i32::MIN as i64 { i32::MIN } else { v as i32 }
}

/// `a + b` saturating at the `i32` bounds.
pub fn saturating_add_i32(a: i32, b: i32) -> (r: i32)
    ensures
        r as int == clamp_i32(a + b),
{
    let v = a as i64 + b as i64;
    if v > i32::MAX as i64 { i32::MAX } else if v < i32::MIN as i64 { i32::MIN } else { v as i32 }
}

/// `a * b` saturating at the `i32` bounds.
pub fn saturating_mul_i32(a: i32, b: i32) -> (r: i32)
    ensures
        r as int == clamp_i32(a * b),
{
    proof {
        let x = a as int;
        let y = b as int;
        assert(-0x4000_0000_0000_0000int <= x * y <= 0x4000_0000_0000_0000int) by (nonlinear_arith)
            requires -0x8000_0000int <= x < 0x8000_0000int, -0x8000_0000int <= y < 0x8000_0000int;
    }
    let v = (a as i64) * (b as i64);
    if v > i32::MAX as i64 { i32::MAX } else if v < i32::MIN as i64 { i32::MIN } else { v as i32 }
}

/// `a + b` saturating at `u128::MAX`.
pub open spec fn sat_add_u128(a: nat, b: nat) -> nat {
    if a + b > u128::MAX { u128::MAX as nat } else { a + b }
}

/// What `compute_amounts` gives between two prices: the (input, output) amounts of moving
/// the price from `sqrt_a` to `sqrt_b` at liquidity `l`, input rounded up.
pub open spec fn spec_compute_amounts(sqrt_a: nat, sqrt_b: nat, l: nat, zero_for_one: bool) -> Result<(u128, u128), Error> {
    if zero_for_one {
        match amount0_delta_spec(sqrt_b, sqrt_a, l, true) {
            Ok(x) => Ok((x, amount1_delta_spec(sqrt_b, sqrt_a, l, false))),
            Err(e) => Err(e),
        }
    } else {
        match amount0_delta_spec(sqrt_a, sqrt_b, l, false) {
            Ok(y) => Ok((amount1_delta_spec(sqrt_a, sqrt_b, l, true), y)),
            Err(e) => Err(e),
        }
    }
}

/// The full-range ticks the walk corrects for, (0, 0) when the spacing has none.
pub open spec fn spec_fr_ticks(spacing: int) -> (int, int) {
    match spec_full_range_ticks_for_spacing(spacing) {
        Some(p) => p,
        None => (0, 0),
    }
}

/// How far the cursor is from a step's target compressed tick.
pub open spec fn walk_measure(zero_for_one: bool, cursor: int, target_compressed: int) -> int {
    if zero_for_one { cursor - target_compressed + 1 } else { target_compressed - cursor }
}

/// The walk across the initialized ticks between the cursor and a step's target, from state
/// `st` = (amount in, amount out, liquidity, cursor price, cursor compressed tick). Each
/// initialized tick found on the near side of `target_tick` adds the amounts up to it,
/// crosses it (its net liquidity less the full-range positions' share; `LiquidityOverflow`
/// when that is `i128::MIN`) and moves the cursor past it. The walk stops when no such tick
/// is left, when a crossing would not move the cursor, or when an amount saturates.
pub open spec fn spec_step_walk(pool: ConcentratedLiquidityPool, zero_for_one: bool, spacing: int, frl: nat,
    target_compressed: int, target_tick: int, st: (u128, u128, u128, nat, int)) -> Result<(u128, u128, u128, nat, int), Error>
    decreases walk_measure(zero_for_one, st.4, target_compressed),
{
    let (si, so, liq, sc, cursor) = st;
    match spec_find_initialized(pool.ticks.ticks@, pool.ticks.word_bitmap@, cursor, target_compressed, spacing, zero_for_one) {
        None => Ok(st),
        Some((init_tick, raw_net)) => {
            if (if zero_for_one { init_tick < target_tick } else { init_tick > target_tick }) {
                Ok(st)
            } else if !(MIN_TICK <= init_tick <= MAX_TICK) {
                Err(Error::TickOutOfBounds)
            } else {
                let sqrt_init = spec_sqrt_ratio_at_tick(init_tick as int);
                match spec_compute_amounts(sc, sqrt_init, liq as nat, zero_for_one) {
                    Err(e) => Err(e),
                    Ok((a_in, a_out)) => {
                        let (fr_lower, fr_upper) = spec_fr_ticks(spacing);
                        let net = clamp_i128(raw_net + spec_full_range_liquidity_net_adjustment(init_tick as int, spacing,
                            fr_lower, fr_upper, frl));
                        if net == i128::MIN {
                            Err(Error::LiquidityOverflow)
                        } else {
                            let si2 = sat_add_u128(si as nat, a_in as nat) as u128;
                            let so2 = sat_add_u128(so as nat, a_out as nat) as u128;
                            let liq2 = spec_apply_liquidity_net(liq as nat, net, zero_for_one) as u128;
                            let crossed = floor_div(init_tick as int, spacing);
                            let next = if zero_for_one { crossed - 1 } else { crossed };
                            let moved = if zero_for_one {
                                next < cursor && next >= target_compressed - 1
                            } else {
                                next > cursor && next <= target_compressed
                            };
                            if !moved {
                                Ok((si2, so2, liq2, sqrt_init, cursor))
                            } else if si2 == u128::MAX || so2 == u128::MAX {
                                Ok((si2, so2, liq2, sqrt_init, next))
                            } else {
                                spec_step_walk(pool, zero_for_one, spacing, frl, target_compressed, target_tick,
                                    (si2, so2, liq2, sqrt_init, next))
                            }
                        }
                    },
                }
            }
        },
    }
}

/// The compressed tick that step `step` of the ladder ends at: `(step + 1)(step + 2) / 2`
/// spacings below the current compressed tick `cc`, or that many plus one above it.
pub open spec fn spec_step_target_compressed(zero_for_one: bool, cc: int, step: int) -> int {
    let count = (step + 1) * (step + 2) / 2;
    if zero_for_one { clamp_i32(cc - count) } else { clamp_i32(clamp_i32(cc + count) + 1) }
}

/// The tick that step `step` ends at, kept within the tick bounds on the side of the walk.
pub open spec fn spec_step_target_tick(zero_for_one: bool, spacing: int, cc: int, step: int) -> int {
    let scaled = clamp_i32(spec_step_target_compressed(zero_for_one, cc, step) * spacing);
    if zero_for_one {
        if scaled < MIN_TICK { MIN_TICK as int } else { scaled }
    } else if scaled > MAX_TICK {
        MAX_TICK as int
    } else {
        scaled
    }
}

/// One step of the ladder from (price `sc`, liquidity `liq`, cursor): Ok((amount in, amount
/// out, price, liquidity, cursor after, exhausted)). A step whose target price is the
/// cursor's yields nothing and ends the ladder; otherwise the walk to the target
/// (`spec_step_walk`) plus the rest of the way at constant liquidity, which is skipped when
/// the liquidity is zero or an amount has saturated. A step ending at a tick bound ends the
/// ladder.
#[verifier::opaque]
pub open spec fn spec_ladder_step(pool: ConcentratedLiquidityPool, zero_for_one: bool, spacing: int, frl: nat, cc: int,
    step: int, sc: nat, liq: u128, cursor: int) -> Result<(u128, u128, nat, u128, int, bool), Error>
{
    let target_compressed = spec_step_target_compressed(zero_for_one, cc, step);
    let target_tick = spec_step_target_tick(zero_for_one, spacing, cc, step);
    if !(MIN_TICK <= target_tick <= MAX_TICK) {
        Err(Error::TickOutOfBounds)
    } else {
        let target_sqrt = spec_sqrt_ratio_at_tick(target_tick);
        if target_sqrt == sc {
            Ok((0u128, 0u128, sc, liq, cursor, true))
        } else {
            match spec_step_walk(pool, zero_for_one, spacing, frl, target_compressed, target_tick, (0u128, 0u128, liq, sc, cursor)) {
                Err(e) => Err(e),
                Ok((si, so, liq2, sc2, _)) => {
                    let tail: Result<(u128, u128), Error> = if sc2 != target_sqrt && liq2 > 0 && si != u128::MAX && so != u128::MAX {
                        spec_compute_amounts(sc2, target_sqrt, liq2 as nat, zero_for_one)
                    } else {
                        Ok((0u128, 0u128))
                    };
                    match tail {
                        Err(e) => Err(e),
                        Ok((a_in, a_out)) => Ok((sat_add_u128(si as nat, a_in as nat) as u128, sat_add_u128(so as nat, a_out as nat) as u128,
                            target_sqrt, liq2, if zero_for_one { target_compressed } else { target_compressed - 1 },
                            target_tick <= MIN_TICK || target_tick >= MAX_TICK)),
                    }
                },
            }
        }
    }
}

/// A ladder step hands the next step the liquidity left after the crossings of its own walk,
/// in both directions: the liquidity `spec_step_walk` ends with when the step walks, and the
/// liquidity it was given when its target is the cursor's price (no walk). A walk that finds
/// no initialized tick to cross keeps the liquidity it was given.
pub proof fn law_ladder_step_hands_on_walk_liquidity(pool: ConcentratedLiquidityPool, zero_for_one: bool, spacing: int,
    frl: nat, cc: int, step: int, sc: nat, liq: u128, cursor: int)
    ensures
        ({
            let target_compressed = spec_step_target_compressed(zero_for_one, cc, step);
            let target_tick = spec_step_target_tick(zero_for_one, spacing, cc, step);
            spec_ladder_step(pool, zero_for_one, spacing, frl, cc, step, sc, liq, cursor)
                matches Ok((_, _, _, liq_out, _, _)) ==> (
                    (spec_sqrt_ratio_at_tick(target_tick) == sc ==> liq_out == liq)
                    && (spec_sqrt_ratio_at_tick(target_tick) != sc ==> (
                        spec_step_walk(pool, zero_for_one, spacing, frl, target_compressed, target_tick,
                            (0u128, 0u128, liq, sc, cursor)) matches Ok(w) && liq_out == w.2)))
        }),
        ({
            let target_compressed = spec_step_target_compressed(zero_for_one, cc, step);
            let target_tick = spec_step_target_tick(zero_for_one, spacing, cc, step);
            spec_find_initialized(pool.ticks.ticks@, pool.ticks.word_bitmap@, cursor, target_compressed, spacing,
                zero_for_one) is None ==> spec_step_walk(pool, zero_for_one, spacing, frl, target_compressed, target_tick,
                    (0u128, 0u128, liq, sc, cursor)) == Ok::<(u128, u128, u128, nat, int), Error>((0u128, 0u128, liq, sc, cursor))
        }),
{
    reveal(spec_ladder_step);
}

/// A walk that crosses one initialized tick and finds no further one before its target ends
/// with the liquidity moved by that tick's net liquidity less the full-range positions' share
/// (`spec_apply_liquidity_net`): subtracted moving down, added moving up.
pub proof fn law_walk_crossing_applies_net(pool: ConcentratedLiquidityPool, zero_for_one: bool, spacing: int, frl: nat,
    target_compressed: int, target_tick: int, liq: u128, sc: nat, cursor: int)
    ensures
        ({
            let m = pool.ticks.ticks@;
            let wb = pool.ticks.word_bitmap@;
            spec_find_initialized(m, wb, cursor, target_compressed, spacing, zero_for_one) matches Some((t, raw_net))
            ==> ((if zero_for_one { t >= target_tick } else { t <= target_tick })
            ==> (spec_find_initialized(m, wb, if zero_for_one { floor_div(t as int, spacing) - 1 } else { floor_div(t as int, spacing) },
                target_compressed, spacing, zero_for_one) is None
            ==> (spec_step_walk(pool, zero_for_one, spacing, frl, target_compressed, target_tick, (0u128, 0u128, liq, sc, cursor))
                matches Ok(w)
            ==> {
                let (fr_lower, fr_upper) = spec_fr_ticks(spacing);
                let net = clamp_i128(raw_net + spec_full_range_liquidity_net_adjustment(t as int, spacing, fr_lower, fr_upper, frl));
                w.2 as nat == spec_apply_liquidity_net(liq as nat, net, zero_for_one)
            })))
        }),
{
    let m = pool.ticks.ticks@;
    let wb = pool.ticks.word_bitmap@;
    if let Some((t, raw_net)) = spec_find_initialized(m, wb, cursor, target_compressed, spacing, zero_for_one) {
        let st = (0u128, 0u128, liq, sc, cursor);
        if let Ok(w) = spec_step_walk(pool, zero_for_one, spacing, frl, target_compressed, target_tick, st) {
            let (fr_lower, fr_upper) = spec_fr_ticks(spacing);
            let net = clamp_i128(raw_net + spec_full_range_liquidity_net_adjustment(t as int, spacing, fr_lower, fr_upper, frl));
            let sqrt_init = spec_sqrt_ratio_at_tick(t as int);
            if (if zero_for_one { t >= target_tick } else { t <= target_tick }) && MIN_TICK <= t <= MAX_TICK {
                if let Ok((a_in, a_out)) = spec_compute_amounts(sc, sqrt_init, liq as nat, zero_for_one) {
                    let si2 = sat_add_u128(0, a_in as nat) as u128;
                    let so2 = sat_add_u128(0, a_out as nat) as u128;
                    let liq2 = spec_apply_liquidity_net(liq as nat, net, zero_for_one) as u128;
                    let next = if zero_for_one { floor_div(t as int, spacing) - 1 } else { floor_div(t as int, spacing) };
                    let after = (si2, so2, liq2, sqrt_init, next);
                    if spec_find_initialized(m, wb, next, target_compressed, spacing, zero_for_one) is None {
                        assert(spec_step_walk(pool, zero_for_one, spacing, frl, target_compressed, target_tick, after) == Ok::<(u128, u128, u128, nat, int), Error>(after));
                    }
                }
            }
        }
    }
}

/// The first `n` steps of the ladder: Ok((amounts so far, price, liquidity, cursor,
/// exhausted)). It starts at the pool's price and current compressed tick with liquidity
/// `base`; once exhausted every further step yields nothing.
pub open spec fn spec_ladder(pool: ConcentratedLiquidityPool, zero_for_one: bool, spacing: int, base: u128, frl: nat, n: nat)
    -> Result<(Seq<u128>, nat, u128, int, bool), Error>
    decreases n,
{
    let cc = floor_div(pool.slot0.tick as int, spacing);
    if n == 0 {
        Ok((Seq::empty(), pool.slot0.sqrt_price_x96@, base, cc, false))
    } else {
        match spec_ladder(pool, zero_for_one, spacing, base, frl, (n - 1) as nat) {
            Err(e) => Err(e),
            Ok((res, sc, liq, cursor, exhausted)) => if exhausted {
                Ok((res.push(0u128).push(0u128), sc, liq, cursor, true))
            } else {
                match spec_ladder_step(pool, zero_for_one, spacing, frl, cc, n - 1, sc, liq, cursor) {
                    Err(e) => Err(e),
                    Ok((a_in, a_out, sc2, liq2, cursor2, ex2)) => Ok((res.push(a_in).push(a_out), sc2, liq2, cursor2, ex2)),
                }
            },
        }
    }
}

/// The (input, output) pairs of `steps` ladder steps in one direction, flattened; all zero
/// for a non-positive spacing or an unpriced pool.
pub open spec fn spec_direction_steps(pool: ConcentratedLiquidityPool, zero_for_one: bool, steps: nat, spacing: int,
    base: u128, frl: nat) -> Result<Seq<u128>, Error>
{
    if spacing <= 0 || pool.slot0.sqrt_price_x96@ == 0 {
        Ok(Seq::new(2 * steps, |i: int| 0u128))
    } else {
        match spec_ladder(pool, zero_for_one, spacing, base, frl, steps) {
            Err(e) => Err(e),
            Ok(t) => Ok(t.0),
        }
    }
}

/// An error in the ladder persists through the later steps.
pub proof fn lemma_ladder_err_persists(pool: ConcentratedLiquidityPool, zero_for_one: bool, spacing: int, base: u128, frl: nat,
    n: nat, m: nat)
    requires
        n <= m,
        spec_ladder(pool, zero_for_one, spacing, base, frl, n) is Err,
    ensures
        spec_ladder(pool, zero_for_one, spacing, base, frl, m) == spec_ladder(pool, zero_for_one, spacing, base, frl, n),
    decreases m - n,
{
    if n < m {
        lemma_ladder_err_persists(pool, zero_for_one, spacing, base, frl, n, (m - 1) as nat);
    }
}

impl ConcentratedLiquidityPool {
    /// Token amounts of the full-range liquidity at the current price (rounded down); zero
    /// without full-range liquidity or for a spacing with no full range.
    pub fn compute_full_range_reserves(&self, spacing: i32, full_range_liquidity: u128) -> (r: Result<(u128, u128), Error>)
        ensures
            full_range_liquidity == 0 ==> r == Ok::<(u128, u128), Error>((0, 0)),
            full_range_liquidity > 0 ==> match spec_full_range_ticks_for_spacing(spacing as int) {
                None => r == Ok::<(u128, u128), Error>((0, 0)),
                Some((lower, upper)) => r == spec_amounts_for_liquidity(self.slot0.sqrt_price_x96@, lower, upper,
                    full_range_liquidity as nat, false),
            },
    {
        if full_range_liquidity == 0 {
            return Ok((0, 0));
        }
        let (tick_lower, tick_upper) = match full_range_ticks_for_spacing(spacing) {
            Some(ticks) => ticks,
            None => {
                return Ok((0, 0));
            },
        };
        Self::amounts_for_liquidity(&self.slot0, tick_lower, tick_upper, full_range_liquidity, false)
    }

    /// Walks the initialized ticks from the cursor toward a step's target (see
    /// `spec_step_walk`).
    fn walk_to_target(
        &self,
        zero_for_one: bool,
        spacing: i32,
        full_range_liquidity: u128,
        fr_lower: i32,
        fr_upper: i32,
        target_compressed: i32,
        target_tick: i32,
        step_in_0: u128,
        step_out_0: u128,
        liquidity_0: u128,
        sqrt_cursor_0: U256,
        cursor_compressed_0: i32,
    ) -> (r: Result<(u128, u128, u128, U256, i32), Error>)
        requires
            self.wf(),
            spacing > 0,
            full_range_liquidity <= i128::MAX,
            (fr_lower as int, fr_upper as int) == spec_fr_ticks(spacing as int),
            -900000 <= cursor_compressed_0 <= 900000,
            -887503 <= target_compressed <= 887504,
        ensures
            match spec_step_walk(*self, zero_for_one, spacing as int, full_range_liquidity as nat, target_compressed as int,
                target_tick as int, (step_in_0, step_out_0, liquidity_0, sqrt_cursor_0@, cursor_compressed_0 as int)) {
                Ok(st) => r matches Ok((a, b, l, s, c)) && a == st.0 && b == st.1 && l == st.2 && s@ == st.3
                    && c as int == st.4,
                Err(e) => r == Err::<(u128, u128, u128, U256, i32), Error>(e),
            },
    {
        let ghost sp = spacing as int;
        let ghost frl = full_range_liquidity as nat;
        let mut step_in = step_in_0;
        let mut step_out = step_out_0;
        let mut liquidity = liquidity_0;
        let mut sqrt_cursor = sqrt_cursor_0;
        let mut cursor_compressed = cursor_compressed_0;
        loop
            invariant
                self.wf(),
                spacing > 0,
                sp == spacing as int,
                frl == full_range_liquidity as nat,
                full_range_liquidity <= i128::MAX,
                (fr_lower as int, fr_upper as int) == spec_fr_ticks(spacing as int),
                -900000 <= cursor_compressed <= 900000,
                -887503 <= target_compressed <= 887504,
                spec_step_walk(*self, zero_for_one, sp, frl, target_compressed as int, target_tick as int,
                    (step_in_0, step_out_0, liquidity_0, sqrt_cursor_0@, cursor_compressed_0 as int))
                == spec_step_walk(*self, zero_for_one, sp, frl, target_compressed as int, target_tick as int,
                    (step_in, step_out, liquidity, sqrt_cursor@, cursor_compressed as int)),
            decreases walk_measure(zero_for_one, cursor_compressed as int, target_compressed as int),
        {
            let maybe_init = self.ticks.find_initialized_tick(cursor_compressed, target_compressed, spacing, zero_for_one);
            let (init_tick, raw_liquidity_net) = match maybe_init {
                Some(found) => found,
                None => {
                    return Ok((step_in, step_out, liquidity, sqrt_cursor, cursor_compressed));
                },
            };
            let in_range = if zero_for_one { init_tick >= target_tick } else { init_tick <= target_tick };
            if !in_range {
                return Ok((step_in, step_out, liquidity, sqrt_cursor, cursor_compressed));
            }
            let sqrt_init = sqrt_ratio_at_tick(init_tick)?;
            let (amt_in, amt_out) = compute_amounts(&sqrt_cursor, &sqrt_init, liquidity, zero_for_one)?;
            let new_in = step_in.saturating_add(amt_in);
            let new_out = step_out.saturating_add(amt_out);
            let adj = full_range_liquidity_net_adjustment(init_tick, spacing, fr_lower, fr_upper, full_range_liquidity);
            let liquidity_net = saturating_add_i128(raw_liquidity_net, adj);
            if liquidity_net == i128::MIN {
                return Err(Error::LiquidityOverflow);
            }
            let new_liquidity = apply_liquidity_net(liquidity, liquidity_net, zero_for_one);
            let crossed = compress_tick(init_tick, spacing);
            proof {
                crate::bitmap::lemma_floor_div_bounds(init_tick as int, spacing as int);
                if crossed < -887272 {
                    assert((crossed as int + 1) * spacing as int <= crossed as int + 1) by (nonlinear_arith)
                        requires crossed + 1 < 0, spacing >= 1;
                }
                if crossed > 887272 {
                    assert(crossed as int * spacing as int >= crossed as int) by (nonlinear_arith)
                        requires crossed > 0, spacing >= 1;
                }
            }
            let next_cursor = if zero_for_one { crossed - 1 } else { crossed };
            // A crossing moves the cursor past the crossed tick.
            let moved = if zero_for_one {
                next_cursor < cursor_compressed && next_cursor >= target_compressed - 1
            } else {
                next_cursor > cursor_compressed && next_cursor <= target_compressed
            };
            step_in = new_in;
            step_out = new_out;
            liquidity = new_liquidity;
            sqrt_cursor = sqrt_init;
            if !moved {
                return Ok((step_in, step_out, liquidity, sqrt_cursor, cursor_compressed));
            }
            cursor_compressed = next_cursor;
            if step_in == u128::MAX || step_out == u128::MAX {
                return Ok((step_in, step_out, liquidity, sqrt_cursor, cursor_compressed));
            }
        }
    }

    /// One step of the ladder (see `spec_ladder_step`).
    fn ladder_step(
        &self,
        zero_for_one: bool,
        spacing: i32,
        full_range_liquidity: u128,
        fr_lower: i32,
        fr_upper: i32,
        compressed_current: i32,
        step: u32,
        sqrt_cursor: U256,
        liquidity: u128,
        cursor_compressed: i32,
    ) -> (r: Result<(u128, u128, U256, u128, i32, bool), Error>)
        requires
            self.wf(),
            spacing > 0,
            full_range_liquidity <= i128::MAX,
            (fr_lower as int, fr_upper as int) == spec_fr_ticks(spacing as int),
            step < 20,
            -887272 <= compressed_current <= 887272,
            -900000 <= cursor_compressed <= 900000,
        ensures
            match spec_ladder_step(*self, zero_for_one, spacing as int, full_range_liquidity as nat, compressed_current as int,
                step as int, sqrt_cursor@, liquidity, cursor_compressed as int) {
                Ok(t) => r matches Ok((a, b, s, l, c, ex)) && a == t.0 && b == t.1 && s@ == t.2 && l == t.3
                    && c as int == t.4 && ex == t.5 && -900000 <= c <= 900000,
                Err(e) => r == Err::<(u128, u128, U256, u128, i32, bool), Error>(e),
            },
    {
        reveal(spec_ladder_step);
        let target_boundary_count = step_target(step);
        proof {
            assert((step + 1) * (step + 2) <= 462) by (nonlinear_arith) requires step < 20;
            assert((step + 1) * (step + 2) >= 0) by (nonlinear_arith) requires step < 20;
            assert(0 <= target_boundary_count <= 231);
        }
        let target_compressed = if zero_for_one {
            saturating_sub_i32(compressed_current, target_boundary_count)
        } else {
            saturating_add_i32(saturating_add_i32(compressed_current, target_boundary_count), 1)
        };
        let scaled = saturating_mul_i32(target_compressed, spacing);
        let target_tick = if zero_for_one {
            if scaled < MIN_TICK { MIN_TICK } else { scaled }
        } else if scaled > MAX_TICK {
            MAX_TICK
        } else {
            scaled
        };
        let sqrt_step_target = sqrt_ratio_at_tick(target_tick)?;
        if sqrt_step_target.eq(&sqrt_cursor) {
            return Ok((0, 0, sqrt_cursor, liquidity, cursor_compressed, true));
        }
        let (walk_in, walk_out, walk_liquidity, walk_sqrt, _) = self.walk_to_target(zero_for_one, spacing, full_range_liquidity,
            fr_lower, fr_upper, target_compressed, target_tick, 0, 0, liquidity, sqrt_cursor, cursor_compressed)?;
        let mut step_in = walk_in;
        let mut step_out = walk_out;
        if !walk_sqrt.eq(&sqrt_step_target) && walk_liquidity > 0 && step_in != u128::MAX && step_out != u128::MAX {
            let (amt_in, amt_out) = compute_amounts(&walk_sqrt, &sqrt_step_target, walk_liquidity, zero_for_one)?;
            step_in = step_in.saturating_add(amt_in);
            step_out = step_out.saturating_add(amt_out);
        }
        let next_cursor = if zero_for_one { target_compressed } else { target_compressed - 1 };
        let exhausted = target_tick <= MIN_TICK || target_tick >= MAX_TICK;
        Ok((step_in, step_out, sqrt_step_target, walk_liquidity, next_cursor, exhausted))
    }

    /// The exact (input, output) amounts over `steps` consecutive price steps from the current
    /// price in one direction, as a flat list of pairs (see `spec_direction_steps`). Step `i`
    /// ends `(i + 1)(i + 2) / 2` spacings away from the current tick; the walk crosses the
    /// initialized ticks on the way with the full-range positions' share taken out of their
    /// net liquidity, since `base_liquidity` excludes them. Steps past the tick bounds are
    /// empty.
    pub fn collect_exact_direction_steps(
        &self,
        zero_for_one: bool,
        steps: u32,
        spacing: i32,
        base_liquidity: u128,
        full_range_liquidity: u128,
    ) -> (r: Result<Vec<u128>, Error>)
        requires
            self.wf(),
            steps <= 20,
            full_range_liquidity <= i128::MAX,
        ensures
            match spec_direction_steps(*self, zero_for_one, steps as nat, spacing as int, base_liquidity,
                full_range_liquidity as nat) {
                Ok(s) => r matches Ok(v) && v@ == s,
                Err(e) => r == Err::<Vec<u128>, Error>(e),
            },
            r matches Ok(v) ==> v@.len() == 2 * steps,
    {
        let mut result: Vec<u128> = Vec::new();
        if spacing <= 0 || self.slot0.sqrt_price_x96.is_zero() {
            push_empty_steps(&mut result, steps);
            proof {
                assert(result@ =~= Seq::new(2 * steps as nat, |i: int| 0u128));
            }
            return Ok(result);
        }
        let slot = self.slot0;
        let compressed_current = compress_tick(slot.tick, spacing);
        proof {
            crate::bitmap::lemma_floor_div_bounds(slot.tick as int, spacing as int);
            if compressed_current > 887272 {
                assert(compressed_current as int * spacing as int >= compressed_current as int) by (nonlinear_arith)
                    requires compressed_current > 0, spacing >= 1;
            }
            if compressed_current < -887272 {
                assert((compressed_current as int + 1) * spacing as int <= compressed_current as int + 1) by (nonlinear_arith)
                    requires compressed_current + 1 < 0, spacing >= 1;
            }
        }
        let mut sqrt_cursor = slot.sqrt_price_x96;
        let mut liquidity = base_liquidity;
        let mut exhausted = false;
        let (fr_lower, fr_upper) = match full_range_ticks_for_spacing(spacing) {
            Some(t) => t,
            None => (0, 0),
        };
        let mut cursor_compressed = compressed_current;
        let mut step: u32 = 0;
        while step < steps
            invariant
                step <= steps <= 20,
                self.wf(),
                spacing > 0,
                full_range_liquidity <= i128::MAX,
                (fr_lower as int, fr_upper as int) == spec_fr_ticks(spacing as int),
                compressed_current as int == floor_div(self.slot0.tick as int, spacing as int),
                -887272 <= compressed_current <= 887272,
                -900000 <= cursor_compressed <= 900000,
                result@.len() == 2 * step,
                self.slot0.sqrt_price_x96@ != 0,
                spec_ladder(*self, zero_for_one, spacing as int, base_liquidity, full_range_liquidity as nat, step as nat)
                    == Ok::<(Seq<u128>, nat, u128, int, bool), Error>((result@, sqrt_cursor@, liquidity, cursor_compressed as int, exhausted)),
            decreases steps - step,
        {
            if exhausted {
                result.push(0);
                result.push(0);
                step += 1;
                continue;
            }
            match self.ladder_step(zero_for_one, spacing, full_range_liquidity, fr_lower, fr_upper, compressed_current, step,
                sqrt_cursor, liquidity, cursor_compressed) {
                Ok((step_in, step_out, next_sqrt, next_liquidity, next_cursor, ended)) => {
                    let ghost prev = result@;
                    result.push(step_in);
                    result.push(step_out);
                    proof {
                        assert(result@ == prev.push(step_in).push(step_out));
                    }
                    sqrt_cursor = next_sqrt;
                    liquidity = next_liquidity;
                    cursor_compressed = next_cursor;
                    exhausted = ended;
                },
                Err(e) => {
                    proof {
                        assert(spec_ladder(*self, zero_for_one, spacing as int, base_liquidity, full_range_liquidity as nat,
                            step as nat + 1) == Err::<(Seq<u128>, nat, u128, int, bool), Error>(e));
                        lemma_ladder_err_persists(*self, zero_for_one, spacing as int, base_liquidity, full_range_liquidity as nat,
                            step as nat + 1, steps as nat);
                    }
                    return Err(e);
                },
            }
            step += 1;
        }
        Ok(result)
    }
}

/// The snapshot a pool publishes (see `get_pool_data`): `LiquidityOverflow` when its
/// full-range liquidity exceeds `i128::MAX`; otherwise the header, the reserves, the
/// full-range reserves and the ladders of both directions over the active liquidity less the
/// full-range liquidity, or the first error among them.
pub open spec fn spec_pool_data(pool: ConcentratedLiquidityPool) -> Result<(Seq<u128>, Seq<u128>), Error> {
    let spacing = pool.tick_spacing as int;
    let steps = spec_exact_tick_steps_for_spacing(spacing);
    let frl = pool.full_range_liquidity;
    if frl > i128::MAX {
        Err(Error::LiquidityOverflow)
    } else {
        let base: u128 = if pool.liquidity >= frl { (pool.liquidity - frl) as u128 } else { 0 };
        match pool.compute_full_range_reserves_spec() {
            Err(e) => Err(e),
            Ok((f0, f1)) => match spec_direction_steps(pool, true, steps, spacing, base, frl as nat) {
                Err(e) => Err(e),
                Ok(down) => match spec_direction_steps(pool, false, steps, spacing, base, frl as nat) {
                    Err(e) => Err(e),
                    Ok(up) => Ok((
                        seq![PLANE_DATA_VERSION, pool.fee as u128, (if spacing > 0 { spacing as u128 } else { 0u128 }), steps as u128],
                        seq![pool.reserve0, pool.reserve1, f0, f1] + down + up,
                    )),
                },
            },
        }
    }
}

impl ConcentratedLiquidityPool {
    /// The snapshot published to the pool plane (see `spec_pool_data`): `init_args` =
    /// [version, fee, spacing (0 if not positive), steps per direction] and `reserves` =
    /// [reserve0, reserve1, full-range reserve0, full-range reserve1] followed by the step
    /// pairs toward token1 and then toward token0, computed from the active liquidity less
    /// the full-range liquidity.
    pub fn get_pool_data(&self) -> (r: Result<(Vec<u128>, Vec<u128>), Error>)
        requires
            self.wf(),
        ensures
            match spec_pool_data(*self) {
                Ok((a, b)) => r matches Ok((init_args, reserves)) && init_args@ == a && reserves@ == b,
                Err(e) => r == Err::<(Vec<u128>, Vec<u128>), Error>(e),
            },
            r matches Ok((init_args, reserves)) ==> {
                let steps = spec_exact_tick_steps_for_spacing(self.tick_spacing as int);
                &&& init_args@ == seq![PLANE_DATA_VERSION, self.fee as u128,
                    (if self.tick_spacing > 0 { self.tick_spacing as u128 } else { 0u128 }), steps as u128]
                &&& reserves@.len() == 4 + 4 * steps
                &&& reserves@[0] == self.reserve0 && reserves@[1] == self.reserve1
                &&& self.compute_full_range_reserves_spec() == Ok::<(u128, u128), Error>((reserves@[2], reserves@[3]))
            },
    {
        let spacing = self.tick_spacing;
        let exact_steps = exact_tick_steps_for_spacing(spacing);
        let full_range_liquidity = self.full_range_liquidity;
        if full_range_liquidity > i128::MAX as u128 {
            return Err(Error::LiquidityOverflow);
        }
        let non_full_range_active_liquidity = self.liquidity.saturating_sub(full_range_liquidity);
        let (full_range_reserve0, full_range_reserve1) = self.compute_full_range_reserves(spacing, full_range_liquidity)?;
        let spacing_u128: u128 = if spacing > 0 { spacing as u128 } else { 0 };
        let mut reserves: Vec<u128> = Vec::new();
        reserves.push(self.reserve0);
        reserves.push(self.reserve1);
        reserves.push(full_range_reserve0);
        reserves.push(full_range_reserve1);
        let ghost head = seq![self.reserve0, self.reserve1, full_range_reserve0, full_range_reserve1];
        proof {
            assert(reserves@ == head);
            if spacing <= 0 {
                assert(exact_steps == 0);
            }
        }
        let steps_0_to_1 = self.collect_exact_direction_steps(true, exact_steps, spacing, non_full_range_active_liquidity, full_range_liquidity)?;
        let steps_1_to_0 = self.collect_exact_direction_steps(false, exact_steps, spacing, non_full_range_active_liquidity, full_range_liquidity)?;
        let mut i: usize = 0;
        while i < steps_0_to_1.len()
            invariant
                i <= steps_0_to_1@.len(),
                reserves@ == head + steps_0_to_1@.subrange(0, i as int),
            decreases steps_0_to_1@.len() - i,
        {
            reserves.push(steps_0_to_1[i]);
            i += 1;
            proof {
                assert(steps_0_to_1@.subrange(0, i as int) == steps_0_to_1@.subrange(0, i - 1).push(steps_0_to_1@[i - 1]));
            }
        }
        proof {
            assert(steps_0_to_1@.subrange(0, i as int) == steps_0_to_1@);
        }
        let mut j: usize = 0;
        while j < steps_1_to_0.len()
            invariant
                j <= steps_1_to_0@.len(),
                reserves@ == head + steps_0_to_1@ + steps_1_to_0@.subrange(0, j as int),
            decreases steps_1_to_0@.len() - j,
        {
            reserves.push(steps_1_to_0[j]);
            j += 1;
            proof {
                assert(steps_1_to_0@.subrange(0, j as int) == steps_1_to_0@.subrange(0, j - 1).push(steps_1_to_0@[j - 1]));
            }
        }
        proof {
            assert(steps_1_to_0@.subrange(0, j as int) == steps_1_to_0@);
        }
        let mut init_args: Vec<u128> = Vec::new();
        init_args.push(PLANE_DATA_VERSION);
        init_args.push(self.fee as u128);
        init_args.push(spacing_u128);
        init_args.push(exact_steps as u128);
        proof {
            assert(init_args@ == seq![PLANE_DATA_VERSION, self.fee as u128, spacing_u128, exact_steps as u128]);
        }
        Ok((init_args, reserves))
    }

    /// The full-range reserves the snapshot reports (see `compute_full_range_reserves`).
    pub open spec fn compute_full_range_reserves_spec(&self) -> Result<(u128, u128), Error> {
        if self.full_range_liquidity == 0 {
            Ok((0u128, 0u128))
        } else {
            match spec_full_range_ticks_for_spacing(self.tick_spacing as int) {
                None => Ok((0u128, 0u128)),
                Some((lower, upper)) => spec_amounts_for_liquidity(self.slot0.sqrt_price_x96@, lower, upper,
                    self.full_range_liquidity as nat, false),
            }
        }
    }
}

} // verus!
