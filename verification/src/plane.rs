//! Snapshot data the pool publishes for liquidity estimation.

use vstd::prelude::*;

verus! {

use crate::bitmap::{compress_tick, floor_div};
use crate::constants::{MAX_TICK, MIN_TICK};
use crate::errors::ConcentratedPoolError as Error;
use crate::math::{amount0_delta, amount0_delta_spec, amount1_delta, amount1_delta_spec};
use crate::tick_math::sqrt_ratio_at_tick;
use crate::u256::U256;

/// Snapshot format version.
pub const PLANE_DATA_VERSION: u128 = 1;

/// Fewest exact steps published per direction.
pub const MIN_EXACT_TICK_STEPS: u32 = 8;

/// Most exact steps published per direction.
pub const MAX_EXACT_TICK_STEPS: u32 = 20;

/// Price distance (in ticks) the exact steps aim to cover.
pub const TARGET_PRICE_DISTANCE_TICKS: u32 = 5700;

/// The first step count `n >= from` whose triangular boundary count covers the target distance.
pub open spec fn spec_steps_from(n: nat, spacing: nat) -> nat
    decreases 20 - n,
{
    if n >= 20 {
        20
    } else if (n * (n + 1) / 2) * spacing >= 5700 {
        n
    } else {
        spec_steps_from(n + 1, spacing)
    }
}

/// Number of exact steps published for a tick spacing (0 for a non-positive spacing).
pub open spec fn spec_exact_tick_steps_for_spacing(spacing: int) -> nat {
    if spacing <= 0 { 0 } else { spec_steps_from(8, spacing as nat) }
}

/// Product clipped to `u32::MAX`.
pub fn saturating_mul_u32(a: u32, b: u32) -> (r: u32)
    ensures
        r as nat == (if a * b > u32::MAX { u32::MAX as nat } else { (a * b) as nat }),
{
    match a.checked_mul(b) {
        Some(v) => v,
        None => u32::MAX,
    }
}

/// Whether `steps` exact steps reach the target price distance: the far boundary lies
/// steps * (steps + 1) / 2 spacing intervals away.
fn covers_target_distance(steps: u32, spacing: u32) -> (r: bool)
    requires
        steps <= 20,
    ensures
        r == ((steps * (steps + 1) / 2) * spacing >= 5700),
{
    proof {
        assert(steps * (steps + 1) <= 420) by (nonlinear_arith) requires steps <= 20;
    }
    let boundary_count = saturating_mul_u32(steps, steps + 1) / 2;
    let covered_ticks = saturating_mul_u32(boundary_count, spacing);
    covered_ticks >= TARGET_PRICE_DISTANCE_TICKS
}

/// Number of exact steps published for a tick spacing.
pub fn exact_tick_steps_for_spacing(spacing: i32) -> (r: u32)
    ensures
        r as nat == spec_exact_tick_steps_for_spacing(spacing as int),
        spacing > 0 ==> MIN_EXACT_TICK_STEPS <= r <= MAX_EXACT_TICK_STEPS,
{
    if spacing <= 0 {
        return 0;
    }
    let spacing_u32 = spacing as u32;
    let mut steps = MIN_EXACT_TICK_STEPS;
    while steps < MAX_EXACT_TICK_STEPS && !covers_target_distance(steps, spacing_u32)
        invariant
            MIN_EXACT_TICK_STEPS <= steps <= MAX_EXACT_TICK_STEPS,
            spacing_u32 == spacing,
            spacing > 0,
            spec_steps_from(8, spacing_u32 as nat) == spec_steps_from(steps as nat, spacing_u32 as nat),
        decreases MAX_EXACT_TICK_STEPS - steps,
    {
        steps += 1;
    }
    steps
}

/// Canonical full-range ticks for a spacing: the spacing multiples closest to the tick bounds.
pub open spec fn spec_full_range_ticks_for_spacing(spacing: int) -> Option<(int, int)> {
    if spacing <= 0 {
        None
    } else {
        let upper = 887272int - 887272int % spacing;
        if upper <= 0 { None } else { Some((-upper, upper)) }
    }
}

/// Canonical full-range ticks for a spacing, `None` for a non-positive spacing or one wider
/// than the tick range.
pub fn full_range_ticks_for_spacing(spacing: i32) -> (r: Option<(i32, i32)>)
    ensures
        r matches Some(p) ==> spec_full_range_ticks_for_spacing(spacing as int) == Some((p.0 as int, p.1 as int)),
        r is None ==> spec_full_range_ticks_for_spacing(spacing as int) is None,
{
    if spacing <= 0 {
        return None;
    }
    // MAX_TICK - MAX_TICK % spacing, and its mirror for MIN_TICK
    let rem = MAX_TICK % spacing;
    let tick_upper = MAX_TICK - rem;
    let tick_lower = MIN_TICK + rem;
    if tick_lower >= tick_upper {
        return None;
    }
    Some((tick_lower, tick_upper))
}

/// Active liquidity after crossing a tick with net liquidity `liquidity_net`, saturating.
pub open spec fn spec_apply_liquidity_net(liquidity: nat, liquidity_net: int, zero_for_one: bool) -> nat {
    let delta = if zero_for_one { -liquidity_net } else { liquidity_net };
    if delta >= 0 {
        if liquidity + delta > u128::MAX { u128::MAX as nat } else { (liquidity + delta) as nat }
    } else {
        if liquidity + delta < 0 { 0 } else { (liquidity + delta) as nat }
    }
}

/// Active liquidity after crossing a tick: downward crossings subtract the net liquidity,
/// upward crossings add it, saturating at the `u128` bounds.
pub fn apply_liquidity_net(liquidity: u128, liquidity_net: i128, zero_for_one: bool) -> (r: u128)
    requires
        liquidity_net > i128::MIN,
    ensures
        r as nat == spec_apply_liquidity_net(liquidity as nat, liquidity_net as int, zero_for_one),
{
    if zero_for_one {
        if liquidity_net >= 0 {
            liquidity.saturating_sub(liquidity_net as u128)
        } else {
            liquidity.saturating_add((-liquidity_net) as u128)
        }
    } else if liquidity_net >= 0 {
        liquidity.saturating_add(liquidity_net as u128)
    } else {
        liquidity.saturating_sub((-liquidity_net) as u128)
    }
}

/// Appends `steps` empty (in, out) pairs.
pub fn push_empty_steps(out: &mut Vec<u128>, steps: u32)
    ensures
        final(out)@.len() == old(out)@.len() + 2 * steps,
        final(out)@.subrange(0, old(out)@.len() as int) == old(out)@,
        forall|k: int| old(out)@.len() <= k < final(out)@.len() ==> #[trigger] final(out)@[k] == 0,
{
    let mut i: u32 = 0;
    while i < steps
        invariant
            i <= steps,
            out@.len() == old(out)@.len() + 2 * i,
            out@.subrange(0, old(out)@.len() as int) == old(out)@,
            forall|k: int| old(out)@.len() <= k < out@.len() ==> #[trigger] out@[k] == 0,
        decreases steps - i,
    {
        out.push(0);
        out.push(0);
        i += 1;
    }
}

/// Cumulative boundary count at step `i`: the triangular number (i+1)(i+2)/2.
pub fn step_target(step: u32) -> (r: i32)
    requires
        step < 20,
    ensures
        r as int == (step as int + 1) * (step as int + 2) / 2,
{
    proof {
        assert((step + 1) * (step + 2) <= 462) by (nonlinear_arith) requires step < 20;
    }
    (((step + 1) * (step + 2)) / 2) as i32
}

/// Liquidity-net correction removing full-range positions' contribution at a tick.
pub open spec fn spec_full_range_liquidity_net_adjustment(tick: int, spacing: int, lower: int, upper: int, l: nat) -> int {
    if l == 0 || spacing <= 0 {
        0
    } else if floor_div(tick, spacing) == floor_div(lower, spacing) {
        -l
    } else if floor_div(tick, spacing) == floor_div(upper, spacing) {
        l as int
    } else {
        0
    }
}

/// Liquidity-net correction removing full-range positions' contribution at a tick:
/// `-L` at the full-range lower tick, `+L` at the upper tick, zero elsewhere.
pub fn full_range_liquidity_net_adjustment(
    tick: i32,
    spacing: i32,
    full_range_lower: i32,
    full_range_upper: i32,
    full_range_liquidity: u128,
) -> (r: i128)
    requires
        full_range_liquidity <= i128::MAX,
    ensures
        r as int == spec_full_range_liquidity_net_adjustment(tick as int, spacing as int,
            full_range_lower as int, full_range_upper as int, full_range_liquidity as nat),
{
    if full_range_liquidity == 0 || spacing <= 0 {
        return 0;
    }
    let compressed = compress_tick(tick, spacing);
    let fr_lower_compressed = compress_tick(full_range_lower, spacing);
    let fr_upper_compressed = compress_tick(full_range_upper, spacing);
    let fl = full_range_liquidity as i128;
    if compressed == fr_lower_compressed {
        -fl
    } else if compressed == fr_upper_compressed {
        fl
    } else {
        0
    }
}

/// (amount in, amount out) for moving the price from `sqrt_a` to `sqrt_b` at constant
/// liquidity: selling token0 rounds the input up and the output down, and likewise for token1.
pub fn compute_amounts(sqrt_a: &U256, sqrt_b: &U256, liquidity: u128, zero_for_one: bool) -> (r: Result<(u128, u128), Error>)
    ensures
        zero_for_one ==> r == (match amount0_delta_spec(sqrt_b@, sqrt_a@, liquidity as nat, true) {
            Ok(x) => Ok::<(u128, u128), Error>((x, amount1_delta_spec(sqrt_b@, sqrt_a@, liquidity as nat, false))),
            Err(e) => Err(e),
        }),
        !zero_for_one ==> r == (match amount0_delta_spec(sqrt_a@, sqrt_b@, liquidity as nat, false) {
            Ok(y) => Ok::<(u128, u128), Error>((amount1_delta_spec(sqrt_a@, sqrt_b@, liquidity as nat, true), y)),
            Err(e) => Err(e),
        }),
{
    if zero_for_one {
        Ok((
            amount0_delta(sqrt_b, sqrt_a, liquidity, true)?,
            amount1_delta(sqrt_b, sqrt_a, liquidity, false),
        ))
    } else {
        Ok((
            amount1_delta(sqrt_a, sqrt_b, liquidity, true),
            amount0_delta(sqrt_a, sqrt_b, liquidity, false)?,
        ))
    }
}

} // verus!
