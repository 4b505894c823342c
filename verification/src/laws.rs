//! Properties that relate several operations of the pool.

use vstd::prelude::*;

verus! {

use crate::math::{amount0_delta_spec, amount1_delta_spec, saturate_u128, spec_amount0_delta, spec_amount1_delta, spec_round_div};
use crate::plane::spec_apply_liquidity_net;
use crate::claims::{spec_claimed, spec_owed_now};
use crate::pool::ConcentratedLiquidityPool;
use crate::positions::{spec_accrued, spec_amounts_for_liquidity, spec_fee_growth_inside, spec_growth_inside, wsub};
use crate::ticks::tick_at;
use crate::bitmap::floor_div;
use crate::math::{spec_max_sqrt_ratio, spec_min_sqrt_ratio};
use crate::ticks::{clamp_i128, spec_empty_tick, spec_updated_tick};
use crate::types::{PositionData, PositionRange, SwapResult, TickInfo};
use crate::u256::{b256, U256};
use crate::u512::{spec_mul_div_ceil, spec_mul_div_floor};
use crate::constants::FEE_DENOMINATOR;
use crate::errors::ConcentratedPoolError as Error;
use crate::math::{q96, spec_div_ceil, spec_mul_div_u128, spec_next_sqrt_price_from_amount0};
use crate::swap::{
    clamp_toward, spec_step_price, spec_compute_swap_step, spec_price_limit, spec_step_in, spec_swap_applied, spec_swap_iteration, spec_swap_outcome,
    spec_swap_walk, SwapWalk, MAX_SWAP_STEPS,
};
use crate::ticks::spec_next_initialized_tick;
use crate::tick_math::{lemma_sqrt_ratio_monotone, lemma_sqrt_ratio_step, lemma_tick_at_sqrt_ratio_bracket, spec_sqrt_ratio_at_tick};
use crate::constants::{MAX_TICK, MIN_TICK};
use vstd::map::Map;

/// Wrapping addition followed by wrapping subtraction of the same value gives back the start:
/// fee-growth accumulators may overflow and still difference correctly.
pub proof fn law_wrapping_add_sub_roundtrip(a: nat, b: nat)
    requires
        a < b256(),
        b < b256(),
    ensures
        wsub((a + b) % b256(), b) == a,
{
    let bb = b256();
    if a + b < bb {
        vstd::arithmetic::div_mod::lemma_small_mod((a + b) as nat, bb);
        assert((a + b) % bb == a + b);
        vstd::arithmetic::div_mod::lemma_mod_add_multiples_vanish(a as int, bb as int);
        vstd::arithmetic::div_mod::lemma_small_mod(a, bb);
        assert(((a + b) % bb + bb - b) == bb + a);
    } else {
        let r = (a + b - bb) as nat;
        vstd::arithmetic::div_mod::lemma_mod_add_multiples_vanish(r as int, bb as int);
        vstd::arithmetic::div_mod::lemma_small_mod(r, bb);
        assert(bb + r == a + b);
        assert((a + b) % bb == r);
        vstd::arithmetic::div_mod::lemma_small_mod(a, bb);
        assert(((a + b) % bb + bb - b) == a);
    }
}

/// A rounded-up quotient is at least the floor and at most one more.
pub proof fn law_mul_div_rounding(a: nat, b: nat, d: nat)
    requires
        d > 0,
    ensures
        spec_mul_div_floor(a, b, d) <= spec_mul_div_ceil(a, b, d) <= spec_mul_div_floor(a, b, d) + 1,
{
}

/// Floor division is monotone in the dividend.
proof fn lemma_round_div_mono(a1: nat, a2: nat, b: nat, d: nat)
    requires
        a1 <= a2,
        d > 0,
    ensures
        spec_round_div(a1, b, d, false) <= spec_round_div(a2, b, d, true),
{
    assert(a1 * b <= a2 * b) by (nonlinear_arith) requires a1 <= a2;
    vstd::arithmetic::div_mod::lemma_div_is_ordered((a1 * b) as int, (a2 * b) as int, d as int);
}

/// For the same price range and liquidity, the token0 amount rounded down (paid out) does not
/// exceed the amount rounded up (charged).
proof fn lemma_amount0_round_order(sa: nat, sb: nat, l: nat)
    requires
        spec_amount0_delta(sa, sb, l, false) is Some,
    ensures
        spec_amount0_delta(sa, sb, l, true) is Some,
        spec_amount0_delta(sa, sb, l, false)->Some_0 <= spec_amount0_delta(sa, sb, l, true)->Some_0,
{
    if l > 0 {
        let lo = if sa > sb { sb } else { sa };
        let hi = if sa > sb { sa } else { sb };
        let num = l * crate::math::q96();
        let diff = (hi - lo) as nat;
        assert(hi > 0);
        lemma_round_div_mono(num, num, diff, hi);
        let tf = spec_round_div(num, diff, hi, false);
        let tc = spec_round_div(num, diff, hi, true);
        lemma_round_div_mono(tf, tc, 1, lo);
    }
}

/// For the same price range and liquidity, the token1 amount rounded down does not exceed
/// the amount rounded up (the unbounded amounts are compared, both clipped alike).
proof fn lemma_amount1_round_order(sa: nat, sb: nat, l: nat)
    ensures
        amount1_delta_spec(sa, sb, l, false) <= amount1_delta_spec(sa, sb, l, true),
{
    if l > 0 {
        let lo = if sa > sb { sb } else { sa };
        let hi = if sa > sb { sa } else { sb };
        lemma_round_div_mono(l, l, (hi - lo) as nat, crate::math::q96());
    }
}

/// Withdrawing liquidity never pays out more of either token than depositing the same
/// liquidity at the same price charges: deposits round up, withdrawals round down.
pub proof fn law_withdraw_not_above_deposit(p: nat, tick_lower: int, tick_upper: int, liquidity: nat)
    requires
        spec_amounts_for_liquidity(p, tick_lower, tick_upper, liquidity, false) is Ok,
        spec_amounts_for_liquidity(p, tick_lower, tick_upper, liquidity, true) is Ok,
    ensures
        ({
            let (w0, w1) = spec_amounts_for_liquidity(p, tick_lower, tick_upper, liquidity, false)->Ok_0;
            let (d0, d1) = spec_amounts_for_liquidity(p, tick_lower, tick_upper, liquidity, true)->Ok_0;
            w0 <= d0 && w1 <= d1
        }),
{
    let sl = crate::tick_math::spec_sqrt_ratio_at_tick(tick_lower);
    let su = crate::tick_math::spec_sqrt_ratio_at_tick(tick_upper);
    if p <= sl {
        lemma_amount0_round_order(sl, su, liquidity);
    } else if p < su {
        lemma_amount0_round_order(p, su, liquidity);
        lemma_amount1_round_order(sl, p, liquidity);
    } else {
        lemma_amount1_round_order(sl, su, liquidity);
    }
}

/// Bringing a position's fees up to date twice at the same fee growth adds nothing the
/// second time.
pub proof fn law_accrue_idempotent(position: PositionData, inside0: nat, inside1: nat)
    requires
        inside0 < b256(),
        inside1 < b256(),
        position.fee_growth_inside_0_last_x128@ == inside0,
        position.fee_growth_inside_1_last_x128@ == inside1,
    ensures
        spec_accrued(position, inside0, inside1)
            == Ok::<(nat, nat), crate::errors::ConcentratedPoolError>((position.tokens_owed_0 as nat, position.tokens_owed_1 as nat)),
{
    vstd::arithmetic::div_mod::lemma_mod_self_0(b256() as int);
    vstd::arithmetic::div_mod::lemma_mod_add_multiples_vanish(0, b256() as int);
    assert(wsub(inside0, inside0) == 0);
    assert(wsub(inside1, inside1) == 0);
}

/// After claiming, a position owes nothing: asked again while the pool's fee state (tick
/// records, fee growth, current tick, spacing) is unchanged, it reports zero.
pub proof fn law_claim_leaves_nothing_owed(pool: ConcentratedLiquidityPool, later: ConcentratedLiquidityPool,
    before: PositionData, range: PositionRange, after: PositionData)
    requires
        spec_claimed(pool, Some(before), range, Some(after)),
        later.ticks.ticks@ == pool.ticks.ticks@,
        later.fee_growth_global_0_x128 == pool.fee_growth_global_0_x128,
        later.fee_growth_global_1_x128 == pool.fee_growth_global_1_x128,
        later.slot0.tick == pool.slot0.tick,
        later.tick_spacing == pool.tick_spacing,
    ensures
        spec_owed_now(later, after, range) == (0nat, 0nat),
{
    let (i0, i1) = spec_fee_growth_inside(pool, range.tick_lower as int, range.tick_upper as int, pool.slot0.tick as int);
    assert(spec_fee_growth_inside(later, range.tick_lower as int, range.tick_upper as int, later.slot0.tick as int) == (i0, i1));
    if spec_accrued(before, i0, i1) is Ok {
        law_accrue_idempotent(after, i0, i1);
    } else {
        assert(spec_accrued(after, i0, i1) is Err);
    }
}

/// Adding liquidity to a position boundary and then removing the same amount restores the
/// tick's gross and net liquidity, unless a saturation happened on the way.
pub proof fn law_tick_update_reversible(t: TickInfo, delta: nat, is_upper: bool, below0: bool, below1: bool, fg0: U256, fg1: U256)
    requires
        t.liquidity_gross + delta <= u128::MAX,
        delta <= i128::MAX,
        i128::MIN <= t.liquidity_net - delta,
        t.liquidity_net + delta <= i128::MAX,
    ensures
        ({
            let once = spec_updated_tick(t, delta as int, is_upper, below0, fg0, fg1);
            let twice = spec_updated_tick(once, -(delta as int), is_upper, below1, fg0, fg1);
            twice.liquidity_gross == t.liquidity_gross && twice.liquidity_net == t.liquidity_net
        }),
{
}

/// Crossing a tick downward and then upward restores the active liquidity, unless a
/// saturation happened on the way.
pub proof fn law_crossing_reversible(liquidity: nat, net: int)
    requires
        liquidity <= u128::MAX,
        0 <= liquidity - net <= u128::MAX,
    ensures
        spec_apply_liquidity_net(spec_apply_liquidity_net(liquidity, net, true), net, false) == liquidity,
{
}


/// A swap step never carries the price past its target: moving down (`zero_for_one`) the
/// price reached is at or above the target, moving up at or below it.
pub proof fn law_step_stops_at_target(cur: nat, target: nat, l: nat, rem: nat, fee: nat, zero_for_one: bool, exact_input: bool)
    ensures
        spec_compute_swap_step(cur, target, l, rem, fee, zero_for_one, exact_input) matches Ok((next, _, _, _))
            ==> (zero_for_one ==> next >= target) && (!zero_for_one ==> next <= target),
{
    reveal(spec_compute_swap_step);
}

/// An exact-input step whose amount left after the fee pays for the whole move to the target
/// reaches the target and spends, input and fee together, at most the amount offered.
pub proof fn law_step_within_offer(cur: nat, target: nat, l: nat, rem: nat, fee: nat, zero_for_one: bool)
    requires
        fee < FEE_DENOMINATOR,
    ensures
        ({
            let k = (FEE_DENOMINATOR - fee) as nat;
            spec_step_in(target, cur, l, zero_for_one) matches Ok(t) ==> (t as nat <= (rem * k) / (FEE_DENOMINATOR as nat)
                ==> (spec_compute_swap_step(cur, target, l, rem, fee, zero_for_one, true) matches Ok((next, ain, _, f))
                ==> next == target && ain + f <= rem))
        }),
{
    reveal(spec_compute_swap_step);
    let k = (FEE_DENOMINATOR - fee) as nat;
    if l > 0 {
        if let Ok(t) = spec_step_in(target, cur, l, zero_for_one) {
            if t as nat <= (rem * k) / (FEE_DENOMINATOR as nat) {
                lemma_fee_within(t as nat, rem, fee);
            }
        }
    }
}

/// An input within the amount left after the fee, plus the fee charged on it (rounded up),
/// stays within the amount offered.
proof fn lemma_fee_within(t: nat, rem: nat, fee: nat)
    requires
        fee < FEE_DENOMINATOR,
        t <= (rem * ((FEE_DENOMINATOR - fee) as nat)) / (FEE_DENOMINATOR as nat),
    ensures
        t <= rem,
        t + spec_mul_div_ceil(t, fee, (FEE_DENOMINATOR - fee) as nat) <= rem,
{
    let k = (FEE_DENOMINATOR - fee) as nat;
    let d = FEE_DENOMINATOR as nat;
    assert(t * d <= rem * k) by (nonlinear_arith)
        requires t <= (rem * k) / d, d > 0;
    assert(t * fee <= (rem - t) * k) by (nonlinear_arith)
        requires t * d <= rem * k, d == fee + k;
    assert(t <= rem) by (nonlinear_arith)
        requires t * d <= rem * k, k <= d, k > 0, d > 0;
    let q = (t * fee) / k;
    assert(q * k <= t * fee && t * fee < q * k + k) by (nonlinear_arith)
        requires q == (t * fee) / k, k > 0;
    assert(q <= rem - t) by (nonlinear_arith)
        requires q * k <= t * fee, t * fee <= (rem - t) * k, k > 0;
    if (t * fee) % k != 0 {
        assert(q < rem - t) by (nonlinear_arith)
            requires q * k <= t * fee, t * fee <= (rem - t) * k, k > 0, (t * fee) % k != 0,
                q == (t * fee) / k, q <= rem - t;
    }
}

/// A quotient rounded up stays at most `y` when the dividend is at most `y` divisors.
proof fn lemma_ceil_le(a: nat, b: nat, d: nat, y: nat)
    requires
        d > 0,
        a * b <= y * d,
    ensures
        spec_mul_div_ceil(a, b, d) <= y,
        spec_div_ceil(a * b, d) <= y,
{
    let x = a * b;
    vstd::arithmetic::div_mod::lemma_fundamental_div_mod(x as int, d as int);
    let q = x / d;
    let r = x % d;
    assert(q <= y) by (nonlinear_arith)
        requires x == d * q + r, 0 <= r < d, x <= y * d, d > 0;
    if r != 0 {
        assert(q < y) by (nonlinear_arith)
            requires x == d * q + r, 0 < r < d, x <= y * d, d > 0;
    }
}

/// A quotient rounded up times its divisor covers the dividend.
proof fn lemma_ceil_covers(a: nat, b: nat, d: nat)
    requires
        d > 0,
    ensures
        spec_mul_div_ceil(a, b, d) * d >= a * b,
        spec_div_ceil(a * b, d) * d >= a * b,
{
    let x = a * b;
    vstd::arithmetic::div_mod::lemma_fundamental_div_mod(x as int, d as int);
    let q = x / d;
    let r = x % d;
    assert((q + 1) * d >= x) by (nonlinear_arith) requires x == d * q + r, r < d;
    assert(q * d == d * q) by (nonlinear_arith);
}

/// The price an exact input of token0 reaches (moving down) lies at or below the start and
/// at or above the exact price `n * p / (n + b * p)`, `n` the liquidity in Q96.
proof fn lemma_price_from_input0(p: nat, l: nat, b: nat, v: nat)
    requires
        spec_next_sqrt_price_from_amount0(p, l, b, true) == Ok::<nat, Error>(v),
    ensures
        v <= p,
        (l * q96()) * p <= v * (l * q96() + b * p),
{
    let n = l * q96();
    if b == 0 {
        assert(n * p <= p * (n + 0 * p)) by (nonlinear_arith);
    } else {
        assert(p > 0);
        let threshold = ((b256() - 1) as nat) / p;
        if b <= threshold {
            let den = n + b * p;
            assert(b * p > 0) by (nonlinear_arith) requires b > 0, p > 0;
            lemma_ceil_covers(n, p, den);
            assert(n * p <= p * den) by (nonlinear_arith) requires den == n + b * p;
            lemma_ceil_le(n, p, den, p);
        } else {
            let f = n / p;
            vstd::arithmetic::div_mod::lemma_fundamental_div_mod(n as int, p as int);
            assert(f * p <= n && n < f * p + p) by (nonlinear_arith)
                requires n == p * f + n % p, 0 <= n % p < p;
            let e = f + b;
            assert(e > 0);
            assert(spec_div_ceil(n, e) == spec_div_ceil(n * 1, e));
            lemma_ceil_covers(n, 1, e);
            assert(n * 1 <= p * e) by (nonlinear_arith) requires n < f * p + p, b >= 1, e == f + b;
            lemma_ceil_le(n, 1, e, p);
            assert(n * p <= v * (n + b * p)) by (nonlinear_arith)
                requires v * e >= n * 1, e == f + b, f * p <= n;
        }
    }
}

/// Moving down from `p` to any price at or above the exact price an input of `b` token0
/// reaches costs at most `b` token0.
proof fn lemma_amount0_within(p: nat, l: nat, b: nat, next: nat)
    requires
        0 < next <= p,
        (l * q96()) * p <= next * (l * q96() + b * p),
    ensures
        spec_amount0_delta(next, p, l, true) matches Some(x) ==> x <= b,
{
    let n = l * q96();
    if l > 0 {
        assert(n * ((p - next) as nat) <= (b * next) * p) by (nonlinear_arith)
            requires n * p <= next * (n + b * p), next <= p;
        lemma_ceil_le(n, (p - next) as nat, p, b * next);
        let t = spec_mul_div_ceil(n, (p - next) as nat, p);
        assert(t * 1 <= b * next);
        lemma_ceil_le(t, 1, next, b);
    }
}

/// An exact-input step toward a target on its side of the current price spends, input and
/// fee together, at most the amount offered.
pub proof fn law_exact_input_step_within_offer(cur: nat, target: nat, l: nat, rem: nat, fee: nat, zero_for_one: bool)
    requires
        fee < FEE_DENOMINATOR,
        zero_for_one ==> target <= cur,
        !zero_for_one ==> cur <= target,
    ensures
        spec_compute_swap_step(cur, target, l, rem, fee, zero_for_one, true) matches Ok((_, ain, _, f))
            ==> ain + f <= rem,
{
    reveal(spec_compute_swap_step);
    let k = (FEE_DENOMINATOR - fee) as nat;
    let d = FEE_DENOMINATOR as nat;
    if l > 0 {
        if let Ok(budget) = spec_mul_div_u128(rem, k, d, false) {
            if let Ok(tt) = spec_step_in(target, cur, l, zero_for_one) {
                assert(budget == (rem * k) / d);
                if budget >= tt {
                    lemma_fee_within(tt as nat, rem, fee);
                } else if let Ok(v) = spec_step_price(cur, l, budget, zero_for_one, true) {
                    let next = clamp_toward(v, target, zero_for_one);
                    if zero_for_one {
                        lemma_price_from_input0(cur, l, budget, v);
                        assert((l * q96()) * cur <= next * (l * q96() + budget * cur)) by (nonlinear_arith)
                            requires (l * q96()) * cur <= v * (l * q96() + budget * cur), v <= next;
                        if next > 0 {
                            lemma_amount0_within(cur, l, budget, next);
                        }
                    } else {
                        let quotient = spec_round_div(budget, q96(), l, false);
                        assert(l * quotient <= budget * q96()) by (nonlinear_arith)
                            requires quotient == (budget * q96()) / l, l > 0;
                        assert(l * ((next - cur) as nat) <= budget * q96()) by (nonlinear_arith)
                            requires l * quotient <= budget * q96(), next - cur <= quotient, cur <= next;
                        lemma_ceil_le(l, (next - cur) as nat, q96(), budget);
                    }
                    if let Ok(ain) = spec_step_in(next, cur, l, zero_for_one) {
                        assert(ain <= budget);
                        lemma_fee_within(ain as nat, rem, fee);
                    }
                }
            }
        }
    }
}

/// A tick boundary that only one position opened returns to the record of a tick never
/// written when that position closes with the same liquidity: no gross or net liquidity,
/// not initialized, outside fee growth cleared.
pub proof fn law_tick_open_close_empties(delta: nat, is_upper: bool, below0: bool, below1: bool, fg0: U256, fg1: U256)
    requires
        0 < delta <= i128::MAX,
    ensures
        spec_updated_tick(spec_updated_tick(spec_empty_tick(), delta as int, is_upper, below0, fg0, fg1),
            -(delta as int), is_upper, below1, fg0, fg1) == spec_empty_tick(),
{
}


/// A swap keeps each token's pool balance equal to its reserve plus its protocol fees: when
/// that holds before, and the balances then move by the swap's signed amounts (positive into
/// the pool), it holds after, for the output token always and for the input token whenever
/// some of it came in. The reported reserves never count protocol fees.
pub proof fn law_swap_keeps_balance_identity(
    before: ConcentratedLiquidityPool,
    after: ConcentratedLiquidityPool,
    zero_for_one: bool,
    amount_specified: int,
    limit: nat,
    res: SwapResult,
    total_fee: u128,
    balance0: int,
    balance1: int,
)
    requires
        spec_swap_applied(before, after, zero_for_one, amount_specified, limit, res, total_fee),
        balance0 == before.reserve0 + before.protocol_fees.token0,
        balance1 == before.reserve1 + before.protocol_fees.token1,
    ensures
        zero_for_one ==> balance1 + res.amount1 == after.reserve1 + after.protocol_fees.token1,
        !zero_for_one ==> balance0 + res.amount0 == after.reserve0 + after.protocol_fees.token0,
        zero_for_one && res.amount0 != 0 ==> balance0 + res.amount0 == after.reserve0 + after.protocol_fees.token0,
        !zero_for_one && res.amount1 != 0 ==> balance1 + res.amount1 == after.reserve1 + after.protocol_fees.token1,
{
}


/// Every step of a swap walk keeps the price on the near side of the limit `l`: at or above
/// it moving down (`zero_for_one`), at or below it moving up.
proof fn lemma_walk_respects_limit(m: Map<i32, TickInfo>, spacing: int, fee: nat, zero_for_one: bool, exact_input: bool,
    l: nat, w: SwapWalk, fuel: nat)
    requires
        zero_for_one ==> w.sqrt_price >= l,
        !zero_for_one ==> w.sqrt_price <= l,
    ensures
        spec_swap_walk(m, spacing, fee, zero_for_one, exact_input, l, w, fuel) matches Ok(w2)
            ==> (zero_for_one ==> w2.sqrt_price >= l) && (!zero_for_one ==> w2.sqrt_price <= l),
    decreases fuel,
{
    if !(w.remaining == 0 || w.sqrt_price == l) && fuel > 0 {
        reveal(spec_swap_iteration);
        let (next_tick, _) = spec_next_initialized_tick(m, w.tick, spacing, zero_for_one);
        let next_price = spec_sqrt_ratio_at_tick(next_tick);
        let target = if zero_for_one {
            if next_price < l { l } else { next_price }
        } else {
            if next_price > l { l } else { next_price }
        };
        law_step_stops_at_target(w.sqrt_price, target, w.liquidity, w.remaining, fee, zero_for_one, exact_input);
        if let Ok(w2) = spec_swap_iteration(m, spacing, fee, zero_for_one, exact_input, l, w) {
            lemma_walk_respects_limit(m, spacing, fee, zero_for_one, exact_input, l, w2, (fuel - 1) as nat);
        }
    }
}

/// A swap never carries the price past its limit: the price it ends at is at or above the
/// effective limit (`spec_price_limit`) when moving down (`zero_for_one`), at or below it when
/// moving up.
pub proof fn law_swap_respects_price_limit(pool: ConcentratedLiquidityPool, zero_for_one: bool, amount_specified: int, limit: nat)
    ensures
        spec_swap_outcome(pool, zero_for_one, amount_specified, limit) matches Ok((_, _, w)) ==> (
            spec_price_limit(pool.slot0.sqrt_price_x96@, zero_for_one, limit) matches Ok(l)
            && (zero_for_one ==> w.sqrt_price >= l) && (!zero_for_one ==> w.sqrt_price <= l)),
        spec_swap_outcome(pool, zero_for_one, amount_specified, limit) matches Ok((_, _, w)) ==> (limit != 0 ==>
            (zero_for_one ==> w.sqrt_price >= limit) && (!zero_for_one ==> w.sqrt_price <= limit)),
{
    law_price_limit_is_the_callers(pool.slot0.sqrt_price_x96@, zero_for_one, limit);
    if let Ok(l) = spec_price_limit(pool.slot0.sqrt_price_x96@, zero_for_one, limit) {
        let exact_input = amount_specified > 0;
        let abs: nat = if amount_specified > 0 { amount_specified as nat } else { (-amount_specified) as nat };
        let w0 = SwapWalk {
            sqrt_price: pool.slot0.sqrt_price_x96@,
            tick: pool.slot0.tick as int,
            liquidity: pool.liquidity as nat,
            remaining: abs,
            calculated: 0,
        };
        lemma_walk_respects_limit(pool.ticks.ticks@, pool.tick_spacing as int, pool.fee as nat, zero_for_one,
            exact_input, l, w0, MAX_SWAP_STEPS as nat);
    }
}


/// The consistency a pool's price and tick keep: the tick lies within the tick bounds and its
/// sqrt price is at most the current sqrt price.
pub open spec fn slot_consistent(sqrt_price: nat, tick: int) -> bool {
    MIN_TICK <= tick <= MAX_TICK && spec_sqrt_ratio_at_tick(tick) <= sqrt_price
}

/// Each step of a swap walk keeps the price and tick consistent.
proof fn lemma_walk_keeps_slot(m: Map<i32, TickInfo>, spacing: int, fee: nat, zero_for_one: bool, exact_input: bool,
    l: nat, w: SwapWalk, fuel: nat)
    requires
        slot_consistent(w.sqrt_price, w.tick),
    ensures
        spec_swap_walk(m, spacing, fee, zero_for_one, exact_input, l, w, fuel) matches Ok(w2)
            ==> slot_consistent(w2.sqrt_price, w2.tick),
    decreases fuel,
{
    if !(w.remaining == 0 || w.sqrt_price == l) && fuel > 0 {
        reveal(spec_swap_iteration);
        reveal(spec_next_initialized_tick);
        let (next_tick, _) = spec_next_initialized_tick(m, w.tick, spacing, zero_for_one);
        assert(MIN_TICK <= next_tick <= MAX_TICK);
        if next_tick > MIN_TICK {
            lemma_sqrt_ratio_step(next_tick - 1);
        }
        if let Ok(w2) = spec_swap_iteration(m, spacing, fee, zero_for_one, exact_input, l, w) {
            if w2.sqrt_price != spec_sqrt_ratio_at_tick(next_tick) && w2.sqrt_price != w.sqrt_price {
                lemma_tick_at_sqrt_ratio_bracket(w2.sqrt_price, 0);
            }
            assert(slot_consistent(w2.sqrt_price, w2.tick));
            lemma_walk_keeps_slot(m, spacing, fee, zero_for_one, exact_input, l, w2, (fuel - 1) as nat);
        }
    }
}

/// A swap keeps the pool's price and tick consistent: when the tick's sqrt price is at most
/// the price before, the tick the swap ends at lies within the tick bounds and its sqrt price
/// is at most the price it ends at.
pub proof fn law_swap_keeps_slot_consistent(pool: ConcentratedLiquidityPool, zero_for_one: bool, amount_specified: int, limit: nat)
    requires
        slot_consistent(pool.slot0.sqrt_price_x96@, pool.slot0.tick as int),
    ensures
        spec_swap_outcome(pool, zero_for_one, amount_specified, limit) matches Ok((_, _, w))
            ==> slot_consistent(w.sqrt_price, w.tick),
{
    if let Ok(l) = spec_price_limit(pool.slot0.sqrt_price_x96@, zero_for_one, limit) {
        let exact_input = amount_specified > 0;
        let abs: nat = if amount_specified > 0 { amount_specified as nat } else { (-amount_specified) as nat };
        let w0 = SwapWalk {
            sqrt_price: pool.slot0.sqrt_price_x96@,
            tick: pool.slot0.tick as int,
            liquidity: pool.liquidity as nat,
            remaining: abs,
            calculated: 0,
        };
        lemma_walk_keeps_slot(pool.ticks.ticks@, pool.tick_spacing as int, pool.fee as nat, zero_for_one,
            exact_input, l, w0, MAX_SWAP_STEPS as nat);
    }
}


/// The price a step computes from an amount moves from `cur` in the direction of the swap:
/// down (`zero_for_one`) or up.
proof fn lemma_step_price_direction(cur: nat, l: nat, amount: nat, zero_for_one: bool, exact_input: bool)
    ensures
        spec_step_price(cur, l, amount, zero_for_one, exact_input) matches Ok(v)
            ==> (zero_for_one ==> v <= cur) && (!zero_for_one ==> cur <= v),
{
    if let Ok(v) = spec_step_price(cur, l, amount, zero_for_one, exact_input) {
        if exact_input && zero_for_one {
            lemma_price_from_input0(cur, l, amount, v);
        } else if !exact_input && !zero_for_one && amount > 0 {
            let n = l * q96();
            let den = (n - amount * cur) as nat;
            assert(den > 0);
            lemma_ceil_covers(n, cur, den);
            assert(n * cur >= cur * den) by (nonlinear_arith) requires den == n - amount * cur, n > amount * cur;
            assert(v >= cur) by (nonlinear_arith)
                requires v * den >= n * cur, n * cur >= cur * den, den > 0;
        }
    }
}

/// A swap step toward a target on its side of the current price ends between the two.
proof fn lemma_step_between(cur: nat, target: nat, l: nat, rem: nat, fee: nat, zero_for_one: bool, exact_input: bool)
    requires
        zero_for_one ==> target <= cur,
        !zero_for_one ==> cur <= target,
    ensures
        spec_compute_swap_step(cur, target, l, rem, fee, zero_for_one, exact_input) matches Ok((next, _, _, _))
            ==> (zero_for_one ==> target <= next <= cur) && (!zero_for_one ==> cur <= next <= target),
{
    reveal(spec_compute_swap_step);
    let k = (FEE_DENOMINATOR - fee) as nat;
    let budget = if exact_input {
        spec_mul_div_u128(rem, k, FEE_DENOMINATOR as nat, false)
    } else {
        Ok(rem)
    };
    if let Ok(b) = budget {
        lemma_step_price_direction(cur, l, b, zero_for_one, exact_input);
    }
}

/// Where a swap walk stands in the range it may cover: the tick lies within the tick bounds
/// with the price between its sqrt price and the next tick's, and the price between the
/// start `start` and the limit `l`.
pub open spec fn walk_in_range(w: SwapWalk, start: nat, l: nat, zero_for_one: bool) -> bool {
    &&& MIN_TICK <= w.tick <= MAX_TICK
    &&& spec_sqrt_ratio_at_tick(w.tick) <= w.sqrt_price
    &&& w.sqrt_price <= spec_sqrt_ratio_at_tick(if w.tick < MAX_TICK { w.tick + 1 } else { MAX_TICK as int })
    &&& zero_for_one ==> l <= w.sqrt_price <= start
    &&& !zero_for_one ==> start <= w.sqrt_price <= l
}

/// Each step of a swap walk stays in range.
proof fn lemma_walk_in_range(m: Map<i32, TickInfo>, spacing: int, fee: nat, zero_for_one: bool, exact_input: bool,
    start: nat, l: nat, w: SwapWalk, fuel: nat)
    requires
        spacing > 0,
        walk_in_range(w, start, l, zero_for_one),
    ensures
        spec_swap_walk(m, spacing, fee, zero_for_one, exact_input, l, w, fuel) matches Ok(w2)
            ==> walk_in_range(w2, start, l, zero_for_one),
    decreases fuel,
{
    if !(w.remaining == 0 || w.sqrt_price == l) && fuel > 0 {
        reveal(spec_swap_iteration);
        let (next_tick, _) = spec_next_initialized_tick(m, w.tick, spacing, zero_for_one);
        crate::ticks::lemma_next_tick_direction(m, w.tick, spacing, zero_for_one);
        let next_price = spec_sqrt_ratio_at_tick(next_tick);
        let up = if w.tick < MAX_TICK { w.tick + 1 } else { MAX_TICK as int };
        if zero_for_one {
            lemma_sqrt_ratio_monotone(next_tick, w.tick);
        } else {
            lemma_sqrt_ratio_monotone(up, next_tick);
        }
        let target = if zero_for_one {
            if next_price < l { l } else { next_price }
        } else {
            if next_price > l { l } else { next_price }
        };
        lemma_step_between(w.sqrt_price, target, w.liquidity, w.remaining, fee, zero_for_one, exact_input);
        if next_tick > MIN_TICK {
            lemma_sqrt_ratio_monotone(next_tick - 1, next_tick);
        }
        if next_tick < MAX_TICK {
            lemma_sqrt_ratio_monotone(next_tick, next_tick + 1);
        }
        if next_tick == MIN_TICK {
            lemma_sqrt_ratio_monotone(MIN_TICK as int, MIN_TICK + 1);
        }
        if let Ok(w2) = spec_swap_iteration(m, spacing, fee, zero_for_one, exact_input, l, w) {
            if w2.sqrt_price != next_price && w2.sqrt_price != w.sqrt_price {
                lemma_tick_at_sqrt_ratio_bracket(w2.sqrt_price, 0);
            }
            assert(walk_in_range(w2, start, l, zero_for_one));
            lemma_walk_in_range(m, spacing, fee, zero_for_one, exact_input, start, l, w2, (fuel - 1) as nat);
        }
    }
}

/// A swap moves the price from where it starts toward its limit and no further: the price it
/// ends at lies between the start price and the effective limit (`spec_price_limit`), when the
/// pool's price lies between its tick's sqrt price and the next tick's.
pub proof fn law_swap_price_between_start_and_limit(pool: ConcentratedLiquidityPool, zero_for_one: bool,
    amount_specified: int, limit: nat)
    requires
        pool.tick_spacing > 0,
        MIN_TICK <= pool.slot0.tick <= MAX_TICK,
        spec_sqrt_ratio_at_tick(pool.slot0.tick as int) <= pool.slot0.sqrt_price_x96@,
        pool.slot0.sqrt_price_x96@ <= spec_sqrt_ratio_at_tick(
            if pool.slot0.tick < MAX_TICK { pool.slot0.tick + 1 } else { MAX_TICK as int }),
    ensures
        spec_swap_outcome(pool, zero_for_one, amount_specified, limit) matches Ok((_, _, w)) ==> (
            spec_price_limit(pool.slot0.sqrt_price_x96@, zero_for_one, limit) matches Ok(l)
            && (zero_for_one ==> l <= w.sqrt_price <= pool.slot0.sqrt_price_x96@)
            && (!zero_for_one ==> pool.slot0.sqrt_price_x96@ <= w.sqrt_price <= l)),
{
    let start = pool.slot0.sqrt_price_x96@;
    if let Ok(l) = spec_price_limit(start, zero_for_one, limit) {
        let exact_input = amount_specified > 0;
        let abs: nat = if amount_specified > 0 { amount_specified as nat } else { (-amount_specified) as nat };
        let w0 = SwapWalk {
            sqrt_price: start,
            tick: pool.slot0.tick as int,
            liquidity: pool.liquidity as nat,
            remaining: abs,
            calculated: 0,
        };
        assert(walk_in_range(w0, start, l, zero_for_one));
        lemma_walk_in_range(pool.ticks.ticks@, pool.tick_spacing as int, pool.fee as nat, zero_for_one,
            exact_input, start, l, w0, MAX_SWAP_STEPS as nat);
    }
}


/// The price limit a swap runs to is the caller's: a nonzero limit strictly between the price
/// bound and the current price, on the side of the move, is taken as it is, and any other
/// nonzero limit is refused with `InvalidPriceLimit`. A zero limit stands for one past the
/// price bound in the direction of the move.
pub proof fn law_price_limit_is_the_callers(price: nat, zero_for_one: bool, limit: nat)
    ensures
        limit != 0 && zero_for_one && spec_min_sqrt_ratio() < limit < price
            ==> spec_price_limit(price, zero_for_one, limit) == Ok::<nat, Error>(limit),
        limit != 0 && zero_for_one && !(spec_min_sqrt_ratio() < limit < price)
            ==> spec_price_limit(price, zero_for_one, limit) == Err::<nat, Error>(Error::InvalidPriceLimit),
        limit != 0 && !zero_for_one && price < limit < spec_max_sqrt_ratio()
            ==> spec_price_limit(price, zero_for_one, limit) == Ok::<nat, Error>(limit),
        limit != 0 && !zero_for_one && !(price < limit < spec_max_sqrt_ratio())
            ==> spec_price_limit(price, zero_for_one, limit) == Err::<nat, Error>(Error::InvalidPriceLimit),
        limit == 0 && zero_for_one && spec_min_sqrt_ratio() + 1 < price
            ==> spec_price_limit(price, zero_for_one, limit) == Ok::<nat, Error>(spec_min_sqrt_ratio() + 1),
        limit == 0 && !zero_for_one && price + 1 < spec_max_sqrt_ratio()
            ==> spec_price_limit(price, zero_for_one, limit) == Ok::<nat, Error>((spec_max_sqrt_ratio() - 1) as nat),
        limit == 0 && zero_for_one && !(spec_min_sqrt_ratio() + 1 < price)
            ==> spec_price_limit(price, zero_for_one, limit) == Err::<nat, Error>(Error::InvalidPriceLimit),
        limit == 0 && !zero_for_one && !(price + 1 < spec_max_sqrt_ratio())
            ==> spec_price_limit(price, zero_for_one, limit) == Err::<nat, Error>(Error::InvalidPriceLimit),
{
}

/// `wsub` on values below 2^256 is the difference, wrapped once when negative.
proof fn lemma_wsub_value(a: nat, b: nat)
    requires
        a < b256(),
        b < b256(),
    ensures
        wsub(a, b) == if a >= b { (a - b) as nat } else { (a + b256() - b) as nat },
{
    let bb = b256();
    let x = (a + bb - b) as nat;
    if a >= b {
        vstd::arithmetic::div_mod::lemma_fundamental_div_mod_converse(x as int, bb as int, 1, (a - b) as int);
    } else {
        vstd::arithmetic::div_mod::lemma_small_mod(x, bb);
    }
}

/// The fee growth inside a range, by where the current tick stands: below the range it is
/// the lower boundary's outside growth less the upper's; at or above the range, the upper's
/// less the lower's; inside it, the global growth less both (all modulo 2^256). Outside the
/// range it does not depend on the global growth, so fees booked while the price is
/// elsewhere never reach the range.
pub proof fn law_growth_inside_by_region(global: nat, other_global: nat, lower_outside: nat, upper_outside: nat,
    tick_lower: int, tick_upper: int, current: int)
    requires
        tick_lower < tick_upper,
        global < b256(),
        other_global < b256(),
        lower_outside < b256(),
        upper_outside < b256(),
    ensures
        current < tick_lower ==> spec_growth_inside(global, lower_outside, upper_outside, tick_lower, tick_upper, current)
            == wsub(lower_outside, upper_outside),
        current >= tick_upper ==> spec_growth_inside(global, lower_outside, upper_outside, tick_lower, tick_upper, current)
            == wsub(upper_outside, lower_outside),
        tick_lower <= current < tick_upper
            ==> spec_growth_inside(global, lower_outside, upper_outside, tick_lower, tick_upper, current)
            == wsub(wsub(global, lower_outside), upper_outside),
        !(tick_lower <= current < tick_upper)
            ==> spec_growth_inside(global, lower_outside, upper_outside, tick_lower, tick_upper, current)
            == spec_growth_inside(other_global, lower_outside, upper_outside, tick_lower, tick_upper, current),
{
    let bb = b256();
    let (g, lo, up) = (global, lower_outside, upper_outside);
    lemma_wsub_value(g, lo);
    lemma_wsub_value(g, up);
    lemma_wsub_value(lo, up);
    lemma_wsub_value(up, lo);
    lemma_wsub_value(other_global, lo);
    lemma_wsub_value(other_global, up);
    if current < tick_lower {
        let below = wsub(g, lo);
        lemma_wsub_value(g, below);
        lemma_wsub_value(wsub(g, below), up);
        let below2 = wsub(other_global, lo);
        lemma_wsub_value(other_global, below2);
        lemma_wsub_value(wsub(other_global, below2), up);
    } else if current >= tick_upper {
        let above = wsub(g, up);
        lemma_wsub_value(wsub(g, lo), above);
        let above2 = wsub(other_global, up);
        lemma_wsub_value(wsub(other_global, lo), above2);
    }
}

/// The fee growth inside a position's range, for both tokens, does not move with the global
/// growth while the current tick lies outside the range: two pools that differ only in their
/// global fee growth report the same growth inside.
pub proof fn law_fee_growth_inside_ignores_global_outside_range(pool: ConcentratedLiquidityPool, other: ConcentratedLiquidityPool,
    tick_lower: int, tick_upper: int, current: int)
    requires
        tick_lower < tick_upper,
        !(tick_lower <= current < tick_upper),
        other.ticks.ticks@ == pool.ticks.ticks@,
        other.tick_spacing == pool.tick_spacing,
    ensures
        spec_fee_growth_inside(pool, tick_lower, tick_upper, current)
            == spec_fee_growth_inside(other, tick_lower, tick_upper, current),
{
    let m = pool.ticks.ticks@;
    let lo = tick_at(m, floor_div(tick_lower, pool.tick_spacing as int));
    let up = tick_at(m, floor_div(tick_upper, pool.tick_spacing as int));
    crate::u256::lemma_u256_bound(pool.fee_growth_global_0_x128);
    crate::u256::lemma_u256_bound(pool.fee_growth_global_1_x128);
    crate::u256::lemma_u256_bound(other.fee_growth_global_0_x128);
    crate::u256::lemma_u256_bound(other.fee_growth_global_1_x128);
    crate::u256::lemma_u256_bound(lo.fee_growth_outside_0_x128);
    crate::u256::lemma_u256_bound(lo.fee_growth_outside_1_x128);
    crate::u256::lemma_u256_bound(up.fee_growth_outside_0_x128);
    crate::u256::lemma_u256_bound(up.fee_growth_outside_1_x128);
    law_growth_inside_by_region(pool.fee_growth_global_0_x128@, other.fee_growth_global_0_x128@,
        lo.fee_growth_outside_0_x128@, up.fee_growth_outside_0_x128@, tick_lower, tick_upper, current);
    law_growth_inside_by_region(pool.fee_growth_global_1_x128@, other.fee_growth_global_1_x128@,
        lo.fee_growth_outside_1_x128@, up.fee_growth_outside_1_x128@, tick_lower, tick_upper, current);
}

} // verus!
