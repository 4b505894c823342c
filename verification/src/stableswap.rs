//! Liquidity estimate of a stableswap (Curve-style) pool: the amplification ramp, the
//! invariant D and the balance y by Newton iteration, the output of a trade, and the
//! depth-weighted integral over trade sizes. Where an intermediate value leaves `u128` or
//! a divisor is zero the result is `None`.

use vstd::prelude::*;

verus! {

use crate::calculator::{
    fixed_mul_floor, get_max_reserve, normalize_reserves, spec_fixed_mul_floor, spec_max_of,
    spec_normalize_reserves, spec_price_weight, spec_weight_steps, spec_weight_steps_fit,
    price_weight_fits, FEE_MULTIPLIER, PRECISION,
};
use crate::math::mul_div_u128;
use crate::u256::U256;
use crate::u512::spec_mul_div_ceil;

/// `Some(v)` when `v` fits in `u128`.
pub open spec fn fit(v: int) -> Option<nat> {
    if 0 <= v <= u128::MAX { Some(v as nat) } else { None }
}

/// The curve parameters and balances a stableswap pool publishes.
pub struct StableSwapPoolData {
    pub fee: u128,
    pub initial_a: u128,
    pub initial_a_time: u128,
    pub future_a: u128,
    pub future_a_time: u128,
    pub xp: Vec<u128>,
}

/// Reads a stableswap snapshot: `init_args` = [fee, initial A, its time, future A, its time]
/// and `xp` the normalized balances.
pub fn parse_stableswap_data(init_args: &Vec<u128>, xp: Vec<u128>) -> (r: StableSwapPoolData)
    requires
        init_args@.len() >= 5,
    ensures
        r.fee == init_args@[0],
        r.initial_a == init_args@[1],
        r.initial_a_time == init_args@[2],
        r.future_a == init_args@[3],
        r.future_a_time == init_args@[4],
        r.xp@ == xp@,
{
    StableSwapPoolData {
        fee: init_args[0],
        initial_a: init_args[1],
        initial_a_time: init_args[2],
        future_a: init_args[3],
        future_a_time: init_args[4],
        xp,
    }
}

/// ceil(x * y / z) in `u128`, `None` when `z` is zero or the result overflows.
pub open spec fn spec_fixed_mul_ceil(x: nat, y: nat, z: nat) -> Option<nat> {
    if z == 0 { None } else { fit(spec_mul_div_ceil(x, y, z) as int) }
}

/// ceil(x * y / z), `None` when `z` is zero or the result needs more than 128 bits.
pub fn fixed_mul_ceil(x: u128, y: u128, z: u128) -> (r: Option<u128>)
    ensures
        r matches Some(v) ==> spec_fixed_mul_ceil(x as nat, y as nat, z as nat) == Some(v as nat),
        r is None ==> spec_fixed_mul_ceil(x as nat, y as nat, z as nat) is None,
{
    match mul_div_u128(x, y, z, true) {
        Ok(v) => Some(v),
        Err(_) => None,
    }
}

/// The amplification coefficient at time `now`: ramping linearly from `initial_a` at
/// `initial_a_time` to `future_a` at `future_a_time`, then constant.
pub open spec fn spec_a(a0: nat, t0: nat, a1: nat, t1: nat, now: nat) -> Option<nat> {
    if now < t1 {
        if now < t0 {
            None
        } else if a1 > a0 {
            match spec_fixed_mul_floor((a1 - a0) as nat, (now - t0) as nat, (t1 - t0) as nat) {
                None => None,
                Some(x) => fit(a0 + x as int),
            }
        } else {
            match spec_fixed_mul_floor((a0 - a1) as nat, (now - t0) as nat, (t1 - t0) as nat) {
                None => None,
                Some(x) => fit(a0 - x),
            }
        }
    } else {
        Some(a1)
    }
}

/// `d * n / m` lies between 0 and `d` when `n <= m`, and grows with `n`.
proof fn lemma_ramp_share(d: nat, n1: nat, n2: nat, m: nat)
    requires
        n1 <= n2 <= m,
        m > 0,
    ensures
        (d * n1) / m <= (d * n2) / m <= d,
        (d * 0) / m == 0,
{
    assert(d * n1 <= d * n2 && d * n2 <= d * m) by (nonlinear_arith) requires n1 <= n2 <= m;
    vstd::arithmetic::div_mod::lemma_div_is_ordered((d * n1) as int, (d * n2) as int, m as int);
    vstd::arithmetic::div_mod::lemma_div_is_ordered((d * n2) as int, (d * m) as int, m as int);
    vstd::arithmetic::div_mod::lemma_div_multiples_vanish(d as int, m as int);
    assert(d * m == m * d) by (nonlinear_arith);
    assert(d * 0 == 0);
}

/// The amplification ramps linearly from `a0` at `t0` to `a1` at `t1`: during the ramp it is
/// `a0` moved toward `a1` by the elapsed share `(now - t0) / (t1 - t0)` of the distance,
/// rounded toward `a0`; it starts at `a0`, stays between `a0` and `a1`, and is `a1` from `t1`
/// on.
pub proof fn law_amplification_ramp(a0: nat, t0: nat, a1: nat, t1: nat, now: nat)
    requires
        a0 <= u128::MAX,
        a1 <= u128::MAX,
    ensures
        t1 <= now ==> spec_a(a0, t0, a1, t1, now) == Some(a1),
        now < t0 && now < t1 ==> spec_a(a0, t0, a1, t1, now) is None,
        t0 <= now < t1 && a1 >= a0 ==> spec_a(a0, t0, a1, t1, now)
            == Some(a0 + ((a1 - a0) as nat * (now - t0) as nat) / ((t1 - t0) as nat)),
        t0 <= now < t1 && a1 < a0 ==> spec_a(a0, t0, a1, t1, now)
            == Some((a0 - ((a0 - a1) as nat * (now - t0) as nat) / ((t1 - t0) as nat)) as nat),
        t0 < t1 ==> spec_a(a0, t0, a1, t1, t0) == Some(a0),
        t0 <= now < t1 ==> (spec_a(a0, t0, a1, t1, now) matches Some(v)
            && (a0 <= a1 ==> a0 <= v <= a1) && (a1 < a0 ==> a1 <= v <= a0)),
{
    if t0 <= now < t1 {
        let m = (t1 - t0) as nat;
        let n = (now - t0) as nat;
        if a1 > a0 {
            lemma_ramp_share((a1 - a0) as nat, n, n, m);
        } else {
            lemma_ramp_share((a0 - a1) as nat, n, n, m);
        }
    }
    if t0 < t1 {
        let m = (t1 - t0) as nat;
        if a1 > a0 {
            lemma_ramp_share((a1 - a0) as nat, 0, 0, m);
        } else {
            lemma_ramp_share((a0 - a1) as nat, 0, 0, m);
        }
    }
}

/// During an upward ramp the amplification never falls as time passes; during a downward
/// ramp it never rises.
pub proof fn law_amplification_monotone(a0: nat, t0: nat, a1: nat, t1: nat, now1: nat, now2: nat)
    requires
        a0 <= u128::MAX,
        a1 <= u128::MAX,
        t0 <= now1 <= now2,
    ensures
        spec_a(a0, t0, a1, t1, now1) matches Some(v1) && spec_a(a0, t0, a1, t1, now2) matches Some(v2)
            ==> (a0 <= a1 ==> v1 <= v2) && (a1 <= a0 ==> v2 <= v1),
{
    law_amplification_ramp(a0, t0, a1, t1, now1);
    law_amplification_ramp(a0, t0, a1, t1, now2);
    if now2 < t1 {
        let m = (t1 - t0) as nat;
        if a1 > a0 {
            lemma_ramp_share((a1 - a0) as nat, (now1 - t0) as nat, (now2 - t0) as nat, m);
        } else {
            lemma_ramp_share((a0 - a1) as nat, (now1 - t0) as nat, (now2 - t0) as nat, m);
        }
    }
}

/// The amplification coefficient at time `now` (see `spec_a`).
pub fn a(initial_a: u128, initial_a_time: u128, future_a: u128, future_a_time: u128, now: u128) -> (r: Option<u128>)
    ensures
        r matches Some(v) ==> spec_a(initial_a as nat, initial_a_time as nat, future_a as nat, future_a_time as nat, now as nat) == Some(v as nat),
        r is None ==> spec_a(initial_a as nat, initial_a_time as nat, future_a as nat, future_a_time as nat, now as nat) is None,
{
    let t1 = future_a_time;
    let a1 = future_a;
    if now < t1 {
        let a0 = initial_a;
        let t0 = initial_a_time;
        if now < t0 {
            return None;
        }
        if a1 > a0 {
            let x = fixed_mul_floor(a1 - a0, now - t0, t1 - t0)?;
            a0.checked_add(x)
        } else {
            let x = fixed_mul_floor(a0 - a1, now - t0, t1 - t0)?;
            a0.checked_sub(x)
        }
    } else {
        Some(a1)
    }
}

/// Sum of a sequence.
pub open spec fn spec_sum(xs: Seq<u128>) -> nat
    decreases xs.len(),
{
    if xs.len() == 0 { 0 } else { spec_sum(xs.drop_last()) + xs.last() as nat }
}

/// D_P: `d_p` divided in turn by each `x * n` and multiplied by `d`, flooring each step.
pub open spec fn spec_d_p(d_p: nat, d: nat, xs: Seq<u128>, n: nat) -> Option<nat>
    decreases xs.len(),
{
    if xs.len() == 0 {
        Some(d_p)
    } else {
        let prev = spec_d_p(d_p, d, xs.drop_last(), n);
        match prev {
            None => None,
            Some(v) => if xs.last() * n > u128::MAX { None } else { spec_fixed_mul_floor(v, d, (xs.last() * n) as nat) },
        }
    }
}

/// Whether two iterates differ by at most one.
pub open spec fn close(a: nat, b: nat) -> bool {
    if a > b { a - b <= 1 } else { b - a <= 1 }
}

/// One Newton step for D.
pub open spec fn spec_d_step(xs: Seq<u128>, s: nat, ann: nat, n: nat, d: nat) -> Option<nat> {
    match spec_d_p(d, d, xs, n) {
        None => None,
        Some(d_p) => {
            let num = ann * s + d_p * n;
            let den = (ann - 1) * d + (n + 1) * d_p;
            if ann == 0 || ann * s > u128::MAX || d_p * n > u128::MAX || num > u128::MAX
                || (ann - 1) * d > u128::MAX || n + 1 > u128::MAX || (n + 1) * d_p > u128::MAX || den > u128::MAX {
                None
            } else {
                spec_fixed_mul_floor(num, d, den as nat)
            }
        },
    }
}

/// Newton iteration for D from `d`, at most `k` more steps, stopping when a step moves it by
/// at most one.
pub open spec fn spec_d_iter(xs: Seq<u128>, s: nat, ann: nat, n: nat, d: nat, k: nat) -> Option<nat>
    decreases k,
{
    if k == 0 {
        Some(d)
    } else {
        match spec_d_step(xs, s, ann, n, d) {
            None => None,
            Some(d2) => if close(d2, d) { Some(d2) } else { spec_d_iter(xs, s, ann, n, d2, (k - 1) as nat) },
        }
    }
}

/// The stableswap invariant D of balances `xs` with `n` coins and amplification `amp`:
/// 0 for empty balances, else at most 255 Newton steps from their sum.
pub open spec fn spec_get_d(n: nat, xs: Seq<u128>, amp: nat) -> Option<nat> {
    let s = spec_sum(xs);
    if s > u128::MAX {
        None
    } else if s == 0 {
        Some(0)
    } else if amp * n > u128::MAX {
        None
    } else {
        spec_d_iter(xs, s, amp * n, n, s, 255)
    }
}

/// The D_P fold of `xs` from `d_p`, in `u128`.
fn d_product(d_p0: u128, d: u128, xp: &Vec<u128>, n: u128) -> (r: Option<u128>)
    ensures
        r matches Some(v) ==> spec_d_p(d_p0 as nat, d as nat, xp@, n as nat) == Some(v as nat),
        r is None ==> spec_d_p(d_p0 as nat, d as nat, xp@, n as nat) is None,
{
    let mut d_p = d_p0;
    let mut i: usize = 0;
    while i < xp.len()
        invariant
            i <= xp@.len(),
            spec_d_p(d_p0 as nat, d as nat, xp@.subrange(0, i as int), n as nat) == Some(d_p as nat),
        decreases xp@.len() - i,
    {
        let x1 = xp[i];
        proof {
            assert(xp@.subrange(0, i as int + 1).drop_last() == xp@.subrange(0, i as int));
            assert(xp@.subrange(0, i as int + 1).last() == x1);
        }
        let xn = match x1.checked_mul(n) {
            Some(v) => v,
            None => {
                proof { lemma_d_p_none_prefix(d_p0 as nat, d as nat, xp@, n as nat, i as int + 1); }
                return None;
            },
        };
        d_p = match fixed_mul_floor(d_p, d, xn) {
            Some(v) => v,
            None => {
                proof { lemma_d_p_none_prefix(d_p0 as nat, d as nat, xp@, n as nat, i as int + 1); }
                return None;
            },
        };
        i += 1;
    }
    proof {
        assert(xp@.subrange(0, xp@.len() as int) == xp@);
    }
    Some(d_p)
}

/// Once the fold fails on a prefix, it fails on the whole sequence.
proof fn lemma_d_p_none_prefix(d_p: nat, d: nat, xs: Seq<u128>, n: nat, k: int)
    requires
        0 <= k <= xs.len(),
        spec_d_p(d_p, d, xs.subrange(0, k), n) is None,
    ensures
        spec_d_p(d_p, d, xs, n) is None,
    decreases xs.len() - k,
{
    if k < xs.len() {
        assert(xs.subrange(0, k + 1).drop_last() == xs.subrange(0, k));
        lemma_d_p_none_prefix(d_p, d, xs, n, k + 1);
    } else {
        assert(xs.subrange(0, k) == xs);
    }
}

/// The sum of the balances, `None` on overflow.
fn checked_sum(xp: &Vec<u128>) -> (r: Option<u128>)
    ensures
        r matches Some(v) ==> spec_sum(xp@) == v,
        r is None ==> spec_sum(xp@) > u128::MAX,
{
    let mut s: u128 = 0;
    let mut i: usize = 0;
    while i < xp.len()
        invariant
            i <= xp@.len(),
            spec_sum(xp@.subrange(0, i as int)) == s,
        decreases xp@.len() - i,
    {
        proof {
            assert(xp@.subrange(0, i as int + 1).drop_last() == xp@.subrange(0, i as int));
        }
        s = match s.checked_add(xp[i]) {
            Some(v) => v,
            None => {
                proof { lemma_sum_prefix_le(xp@, i as int + 1); }
                return None;
            },
        };
        i += 1;
    }
    proof {
        assert(xp@.subrange(0, xp@.len() as int) == xp@);
    }
    Some(s)
}

/// A prefix sum is at most the whole sum.
proof fn lemma_sum_prefix_le(xs: Seq<u128>, k: int)
    requires
        0 <= k <= xs.len(),
    ensures
        spec_sum(xs.subrange(0, k)) <= spec_sum(xs),
    decreases xs.len() - k,
{
    if k < xs.len() {
        assert(xs.subrange(0, k + 1).drop_last() == xs.subrange(0, k));
        lemma_sum_prefix_le(xs, k + 1);
    } else {
        assert(xs.subrange(0, k) == xs);
    }
}

/// The stableswap invariant D (see `spec_get_d`).
pub fn get_d(n_coins: u32, xp: &Vec<u128>, amp: u128) -> (r: Option<u128>)
    ensures
        r matches Some(v) ==> spec_get_d(n_coins as nat, xp@, amp as nat) == Some(v as nat),
        r is None ==> spec_get_d(n_coins as nat, xp@, amp as nat) is None,
{
    let s = checked_sum(xp)?;
    if s == 0 {
        return Some(0);
    }
    let n = n_coins as u128;
    let ann = amp.checked_mul(n)?;
    let mut d = s;
    let mut k: u32 = 255;
    while k > 0
        invariant
            k <= 255,
            s == spec_sum(xp@),
            s > 0,
            ann as nat == amp * n_coins,
            n == n_coins,
            spec_get_d(n_coins as nat, xp@, amp as nat) == spec_d_iter(xp@, s as nat, ann as nat, n as nat, d as nat, k as nat),
        decreases k,
    {
        let d_p = d_product(d, d, xp, n)?;
        if ann == 0 {
            return None;
        }
        let t1 = ann.checked_mul(s)?;
        let t2 = d_p.checked_mul(n)?;
        let num = t1.checked_add(t2)?;
        let t3 = (ann - 1).checked_mul(d)?;
        let n1 = n.checked_add(1)?;
        let t4 = n1.checked_mul(d_p)?;
        let den = t3.checked_add(t4)?;
        let d_prev = d;
        d = fixed_mul_floor(num, d, den)?;
        if d > d_prev {
            if d - d_prev <= 1 {
                return Some(d);
            }
        } else if d_prev - d <= 1 {
            return Some(d);
        }
        k = k - 1;
    }
    Some(d)
}

/// The C and S accumulators of `get_y` over coins `i..n`: every coin but the output one,
/// the input coin at its new balance `x`.
pub open spec fn spec_y_cs(d: nat, n: nat, in_idx: nat, out_idx: nat, x: nat, xs: Seq<u128>, i: nat, c: nat, s: nat) -> Option<(nat, nat)>
    decreases n - i,
{
    if i >= n {
        Some((c, s))
    } else if i == out_idx {
        spec_y_cs(d, n, in_idx, out_idx, x, xs, i + 1, c, s)
    } else {
        let x1: nat = if i == in_idx { x } else { xs[i as int] as nat };
        if s + x1 > u128::MAX || x1 * n > u128::MAX {
            None
        } else {
            match spec_fixed_mul_floor(c, d, x1 * n) {
                None => None,
                Some(c2) => spec_y_cs(d, n, in_idx, out_idx, x, xs, i + 1, c2, s + x1),
            }
        }
    }
}

/// Newton iteration for y from `y`, at most `k` more steps: y := (y^2 + c) / (2y + b - d).
pub open spec fn spec_y_iter(c: nat, b: nat, d: nat, y: nat, k: nat) -> Option<nat>
    decreases k,
{
    if k == 0 {
        Some(y)
    } else if y * y > u128::MAX || y * y + c > u128::MAX || 2 * y > u128::MAX || 2 * y + b > u128::MAX
        || 2 * y + b < d || 2 * y + b - d == 0 {
        None
    } else {
        let y2 = ((y * y + c) / ((2 * y + b - d) as nat)) as nat;
        if close(y2, y) { Some(y2) } else { spec_y_iter(c, b, d, y2, (k - 1) as nat) }
    }
}

/// The balance of the output coin keeping the invariant `d` when the input coin's balance
/// becomes `x`.
pub open spec fn spec_get_y(d: nat, n: nat, in_idx: nat, out_idx: nat, x: nat, xs: Seq<u128>, amp: nat) -> Option<nat> {
    let ann = amp * n;
    if ann > u128::MAX || ann == 0 || ann * n > u128::MAX {
        None
    } else {
        match spec_y_cs(d, n, in_idx, out_idx, x, xs, 0, d, 0) {
            None => None,
            Some((c, s)) => match spec_fixed_mul_floor(c, d, ann * n) {
                None => None,
                Some(c2) => if s + d / ann > u128::MAX { None } else { spec_y_iter(c2, s + d / ann, d, d, 255) },
            },
        }
    }
}

/// The balance of the output coin after the input coin's balance becomes `x` (see `spec_get_y`).
pub fn get_y(d: u128, n_coins: u32, in_idx: u32, out_idx: u32, x: u128, xp: &Vec<u128>, amp: u128) -> (r: Option<u128>)
    requires
        in_idx != out_idx,
        out_idx < n_coins,
        in_idx < n_coins,
        n_coins == xp@.len(),
    ensures
        r matches Some(v) ==> spec_get_y(d as nat, n_coins as nat, in_idx as nat, out_idx as nat, x as nat, xp@, amp as nat) == Some(v as nat),
        r is None ==> spec_get_y(d as nat, n_coins as nat, in_idx as nat, out_idx as nat, x as nat, xp@, amp as nat) is None,
{
    let n = n_coins as u128;
    let ann = amp.checked_mul(n)?;
    if ann == 0 {
        return None;
    }
    let ann_n = ann.checked_mul(n)?;
    let mut c = d;
    let mut s: u128 = 0;
    let mut i: u32 = 0;
    while i < n_coins
        invariant
            i <= n_coins,
            n == n_coins,
            n_coins == xp@.len(),
            ann as nat == amp * n_coins, ann > 0,
            spec_y_cs(d as nat, n as nat, in_idx as nat, out_idx as nat, x as nat, xp@, 0, d as nat, 0)
                == spec_y_cs(d as nat, n as nat, in_idx as nat, out_idx as nat, x as nat, xp@, i as nat, c as nat, s as nat),
        decreases n_coins - i,
    {
        if i == out_idx {
            i += 1;
            continue;
        }
        let x1 = if i == in_idx { x } else { xp[i as usize] };
        s = s.checked_add(x1)?;
        let x1n = x1.checked_mul(n)?;
        c = fixed_mul_floor(c, d, x1n)?;
        i += 1;
    }
    c = fixed_mul_floor(c, d, ann_n)?;
    let b = s.checked_add(d / ann)?;
    let mut y = d;
    let mut k: u32 = 255;
    while k > 0
        invariant
            k <= 255,
            spec_get_y(d as nat, n_coins as nat, in_idx as nat, out_idx as nat, x as nat, xp@, amp as nat)
                == spec_y_iter(c as nat, b as nat, d as nat, y as nat, k as nat),
        decreases k,
    {
        let yy = y.checked_mul(y)?;
        let num = yy.checked_add(c)?;
        let two_y = y.checked_mul(2)?;
        let t = two_y.checked_add(b)?;
        let den = t.checked_sub(d)?;
        if den == 0 {
            return None;
        }
        let y_prev = y;
        y = num / den;
        if y > y_prev {
            if y - y_prev <= 1 {
                return Some(y);
            }
        } else if y_prev - y <= 1 {
            return Some(y);
        }
        k = k - 1;
    }
    Some(y)
}

/// Output of selling `dx` of coin `i` for coin `j`: the drop of coin `j`'s balance less one,
/// minus the fee rounded up; 0 when the computed balance is 0.
pub open spec fn spec_get_dy(d: nat, xs: Seq<u128>, fee_fraction: nat, amp: nat, i: nat, j: nat, dx: nat) -> Option<nat> {
    let x = xs[i as int] + dx;
    if x > u128::MAX {
        None
    } else {
        match spec_get_y(d, xs.len(), i, j, x as nat, xs, amp) {
            None => None,
            Some(y) => if y == 0 {
                Some(0)
            } else if xs[j as int] < y + 1 {
                None
            } else {
                let dy = (xs[j as int] - y - 1) as nat;
                match spec_fixed_mul_ceil(fee_fraction, dy, FEE_MULTIPLIER as nat) {
                    None => None,
                    Some(fee) => if dy < fee { None } else { Some((dy - fee) as nat) },
                }
            },
        }
    }
}

/// Output of selling `dx` of coin `i` for coin `j` (see `spec_get_dy`).
pub fn get_dy(d: u128, reserves: &Vec<u128>, fee_fraction: u128, amp: u128, i: u32, j: u32, dx: u128) -> (r: Option<u128>)
    requires
        i != j,
        i < reserves@.len(),
        j < reserves@.len(),
        reserves@.len() <= u32::MAX,
    ensures
        r matches Some(v) ==> spec_get_dy(d as nat, reserves@, fee_fraction as nat, amp as nat, i as nat, j as nat, dx as nat) == Some(v as nat),
        r is None ==> spec_get_dy(d as nat, reserves@, fee_fraction as nat, amp as nat, i as nat, j as nat, dx as nat) is None,
{
    let x = reserves[i as usize].checked_add(dx)?;
    let y = get_y(d, reserves.len() as u32, i, j, x, reserves, amp)?;
    if y == 0 {
        return Some(0);
    }
    let xj = reserves[j as usize];
    if xj <= y {
        return None;
    }
    let dy = xj - y - 1;
    let fee = fixed_mul_ceil(fee_fraction, dy, FEE_MULTIPLIER)?;
    if dy < fee {
        return None;
    }
    Some(dy - fee)
}

/// Output of a trade of `in_amount` (see `spec_get_dy`).
pub fn estimate_swap(fee_fraction: u128, d: u128, amp: u128, reserves: &Vec<u128>, in_idx: u32, out_idx: u32, in_amount: u128) -> (r: Option<u128>)
    requires
        in_idx != out_idx,
        in_idx < reserves@.len(),
        out_idx < reserves@.len(),
        reserves@.len() <= u32::MAX,
    ensures
        r matches Some(v) ==> spec_get_dy(d as nat, reserves@, fee_fraction as nat, amp as nat, in_idx as nat, out_idx as nat, in_amount as nat) == Some(v as nat),
        r is None ==> spec_get_dy(d as nat, reserves@, fee_fraction as nat, amp as nat, in_idx as nat, out_idx as nat, in_amount as nat) is None,
{
    get_dy(d, reserves, fee_fraction, amp, in_idx, out_idx, in_amount)
}

/// Depth, price and weight of a trade of `in_amt` on the curve (d, reserves, fee, amp, i, j).
pub open spec fn spec_probe(d: nat, rs: Seq<u128>, fee: nat, amp: nat, i: nat, j: nat, min_price: nat, in_amt: nat) -> Option<(nat, nat, nat)> {
    match spec_get_dy(d, rs, fee, amp, i, j, in_amt) {
        None => None,
        Some(depth) => if depth == 0 || in_amt * (PRECISION as nat) > u128::MAX {
            None
        } else {
            let price = (in_amt * (PRECISION as nat)) / depth;
            if price_weight_fits(price, min_price) {
                Some((depth, price, spec_price_weight(price, min_price)))
            } else {
                None
            }
        },
    }
}

/// The trapezoid integral of depth times weight over price, continued from the previous
/// probe with geometrically shrinking trades until the price stops falling or the trade size
/// reaches zero, then closed at the minimum price.
pub open spec fn spec_integrate(d: nat, rs: Seq<u128>, fee: nat, amp: nat, i: nat, j: nat, min_price: nat,
    prev_price: nat, prev_weight: nat, prev_depth: nat, result: nat, in_amt: nat) -> Option<nat>
    decreases in_amt,
{
    let exhausted = in_amt == 0;
    match (if exhausted { Some((0nat, 0nat, 0nat)) } else { spec_probe(d, rs, fee, amp, i, j, min_price, in_amt) }) {
        None => None,
        Some((depth0, price0, weight0)) => {
            let stop = exhausted || price0 > prev_price;
            if stop && prev_price < min_price {
                Some(result)
            } else {
                let last = stop;
                let depth = if last { 0 } else { depth0 };
                let price = if last { min_price } else { price0 };
                let weight = if last { 1 } else { weight0 };
                let p = PRECISION as nat;
                if depth + prev_depth > u128::MAX || weight + prev_weight > u128::MAX {
                    None
                } else {
                    let depth_avg = (depth + prev_depth) / 2;
                    let weight_avg = (weight + prev_weight) / 2;
                    let d_price = (prev_price - price) as nat;
                    let t1 = depth_avg * p;
                    let t2 = t1 * weight_avg;
                    let t3 = t2 / p;
                    let t4 = t3 * d_price;
                    if t1 > u128::MAX || t2 > u128::MAX || t4 > u128::MAX || result + t4 / p > u128::MAX
                        || in_amt * 100 > u128::MAX {
                        None
                    } else {
                        let result2 = result + t4 / p;
                        let next = in_amt * 100 / 125;
                        if last {
                            Some(result2)
                        } else {
                            spec_integrate(d, rs, fee, amp, i, j, min_price, price, weight, depth, result2, next)
                        }
                    }
                }
            }
        },
    }
}

/// Depth, price and weight of a trade of `in_amt` (see `spec_probe`).
fn probe(d: u128, reserves: &Vec<u128>, fee_fraction: u128, amp: u128, in_idx: u32, out_idx: u32, min_price: u128, in_amt: u128)
    -> (r: Option<(u128, u128, u128)>)
    requires
        in_idx != out_idx,
        in_idx < reserves@.len(),
        out_idx < reserves@.len(),
        reserves@.len() <= u32::MAX,
    ensures
        r matches Some((a, b, c)) ==> spec_probe(d as nat, reserves@, fee_fraction as nat, amp as nat, in_idx as nat,
            out_idx as nat, min_price as nat, in_amt as nat) == Some((a as nat, b as nat, c as nat)),
        r is None ==> spec_probe(d as nat, reserves@, fee_fraction as nat, amp as nat, in_idx as nat,
            out_idx as nat, min_price as nat, in_amt as nat) is None,
{
    let depth = get_dy(d, reserves, fee_fraction, amp, in_idx, out_idx, in_amt)?;
    if depth == 0 {
        return None;
    }
    let scaled = in_amt.checked_mul(PRECISION)?;
    let price = scaled / depth;
    let weight = checked_price_weight(price, min_price)?;
    Some((depth, price, weight))
}

/// The price weight when its products fit in `u128`.
pub fn checked_price_weight(price: u128, min_price: u128) -> (r: Option<u128>)
    ensures
        r matches Some(v) ==> price_weight_fits(price as nat, min_price as nat) && v == spec_price_weight(price as nat, min_price as nat),
        r is None ==> !price_weight_fits(price as nat, min_price as nat),
{
    if price == 0 {
        return Some(0);
    }
    let mut result = PRECISION.checked_mul(min_price)? / price;
    let mut i: u32 = 1;
    while i < 8
        invariant
            1 <= i <= 8,
            price > 0,
            (PRECISION as nat) * min_price <= u128::MAX,
            price_weight_fits(price as nat, min_price as nat)
                == spec_weight_steps_fit(result as nat, min_price as nat, price as nat, (8 - i) as nat),
            spec_price_weight(price as nat, min_price as nat)
                == spec_weight_steps(result as nat, min_price as nat, price as nat, (8 - i) as nat),
        decreases 8 - i,
    {
        result = result.checked_mul(min_price)? / price;
        i += 1;
    }
    Some(result)
}

/// The integral in PRECISION units scaled back from normalized reserves.
pub open spec fn finish_liquidity(integral: Option<nat>, nominator: nat, denominator: nat) -> Option<nat> {
    match integral {
        None => None,
        Some(res) => if (res / (PRECISION as nat)) * nominator > u128::MAX || denominator == 0 {
            None
        } else {
            Some(((res / (PRECISION as nat)) * nominator) / denominator)
        },
    }
}

/// Liquidity of a stableswap pool on the side of `in_idx`: the integral of trade depth
/// weighted by (p_min / p)^8 over price, from a trade of twice the largest normalized reserve
/// shrinking by 100/125 per probe, in normalized units scaled back. 0 when either of the first
/// two reserves is 0, or when a unit trade in this direction buys nothing (no price to weigh by).
pub open spec fn spec_stableswap_liquidity(fee_fraction: nat, a0: nat, t0: nat, a1: nat, t1: nat, now: nat,
    reserves: Seq<u128>, in_idx: nat, out_idx: nat) -> Option<nat>
{
    if reserves[0] == 0 || reserves[1] == 0 {
        Some(0)
    } else {
        let (norm, nominator, denominator) = spec_normalize_reserves(reserves);
        let p = PRECISION as nat;
        if exists|k: int| 0 <= k < norm.len() && #[trigger] norm[k] * p > u128::MAX {
            None
        } else {
            let adj = norm.map_values(|v: u128| (v * PRECISION) as u128);
            match spec_a(a0, t0, a1, t1, now) {
                None => None,
                Some(amp) => match spec_get_d(norm.len(), adj, amp) {
                    None => None,
                    Some(d_adj) => match spec_get_d(norm.len(), norm, amp) {
                        None => None,
                        Some(d) => match spec_get_dy(d_adj, adj, fee_fraction, amp, in_idx, out_idx, p) {
                            None => None,
                            Some(est) => if est == 0 {
                                Some(0)
                            } else if spec_max_of(norm) * 2 > u128::MAX {
                                None
                            } else {
                                let min_price: nat = (p * p) / est;
                                let in_amt: nat = (spec_max_of(norm) * 2) as nat;
                                match spec_probe(d, norm, fee_fraction, amp, in_idx, out_idx, min_price, in_amt) {
                                    None => None,
                                    Some((depth, price, weight)) => finish_liquidity(
                                        spec_integrate(d, norm, fee_fraction, amp, in_idx, out_idx, min_price,
                                            price, weight, depth, 0, in_amt), nominator as nat, denominator as nat),
                                }
                            },
                        },
                    },
                },
            }
        }
    }
}

/// Each value times PRECISION, `None` when one overflows.
fn scale_by_precision(values: &Vec<u128>) -> (r: Option<Vec<u128>>)
    ensures
        r matches Some(v) ==> v@ == values@.map_values(|x: u128| (x * PRECISION) as u128)
            && !(exists|k: int| 0 <= k < values@.len() && #[trigger] values@[k] * (PRECISION as nat) > u128::MAX),
        r is None ==> exists|k: int| 0 <= k < values@.len() && #[trigger] values@[k] * (PRECISION as nat) > u128::MAX,
{
    let mut out: Vec<u128> = Vec::new();
    let mut i: usize = 0;
    while i < values.len()
        invariant
            i <= values@.len(),
            out@.len() == i,
            forall|k: int| 0 <= k < i ==> out@[k] == (values@[k] * PRECISION) as u128,
            forall|k: int| 0 <= k < i ==> #[trigger] values@[k] * (PRECISION as nat) <= u128::MAX,
        decreases values@.len() - i,
    {
        let v = match values[i].checked_mul(PRECISION) {
            Some(v) => v,
            None => {
                proof { assert(values@[i as int] * (PRECISION as nat) > u128::MAX); }
                return None;
            },
        };
        out.push(v);
        i += 1;
    }
    proof {
        assert(out@ == values@.map_values(|x: u128| (x * PRECISION) as u128));
    }
    Some(out)
}

/// Liquidity of a stableswap pool on the side of `in_idx` at time `now` (see
/// `spec_stableswap_liquidity`).
pub fn get_liquidity(
    fee_fraction: u128,
    initial_a: u128,
    initial_a_time: u128,
    future_a: u128,
    future_a_time: u128,
    now: u128,
    reserves: &Vec<u128>,
    in_idx: u32,
    out_idx: u32,
) -> (r: Option<u128>)
    requires
        reserves@.len() >= 2,
        reserves@.len() <= u32::MAX,
        in_idx != out_idx,
        in_idx < reserves@.len(),
        out_idx < reserves@.len(),
    ensures
        r matches Some(v) ==> spec_stableswap_liquidity(fee_fraction as nat, initial_a as nat, initial_a_time as nat,
            future_a as nat, future_a_time as nat, now as nat, reserves@, in_idx as nat, out_idx as nat) == Some(v as nat),
        r is None ==> spec_stableswap_liquidity(fee_fraction as nat, initial_a as nat, initial_a_time as nat,
            future_a as nat, future_a_time as nat, now as nat, reserves@, in_idx as nat, out_idx as nat) is None,
{
    let reserve_in = reserves[0];
    let reserve_out = reserves[1];
    if reserve_in == 0 || reserve_out == 0 {
        return Some(0);
    }
    let (reserves_norm, nominator, denominator) = normalize_reserves(reserves);
    proof {
        assert(reserves_norm@.len() == reserves@.len());
    }
    let reserves_adj = scale_by_precision(&reserves_norm)?;
    let amp = a(initial_a, initial_a_time, future_a, future_a_time, now)?;
    let n_tokens = reserves_adj.len() as u32;
    let d_adj = get_d(n_tokens, &reserves_adj, amp)?;
    let d = get_d(n_tokens, &reserves_norm, amp)?;
    let est = estimate_swap(fee_fraction, d_adj, amp, &reserves_adj, in_idx, out_idx, PRECISION)?;
    if est == 0 {
        return Some(0);
    }
    let min_price = PRECISION * PRECISION / est;
    let max_reserve = get_max_reserve(&reserves_norm);
    let start = max_reserve.checked_mul(2)?;
    let (depth, price, weight) = probe(d, &reserves_norm, fee_fraction, amp, in_idx, out_idx, min_price, start)?;
    let ghost goal = spec_integrate(d as nat, reserves_norm@, fee_fraction as nat, amp as nat, in_idx as nat, out_idx as nat,
        min_price as nat, price as nat, weight as nat, depth as nat, 0, start as nat);
    let mut prev_price = price;
    let mut prev_weight = weight;
    let mut prev_depth = depth;
    let mut result: u128 = 0;
    let mut in_amt = start;
    let mut total: u128 = 0;
    loop
        invariant
            in_idx != out_idx,
            in_idx < reserves_norm@.len(),
            out_idx < reserves_norm@.len(),
            reserves_norm@.len() <= u32::MAX,
            spec_integrate(d as nat, reserves_norm@, fee_fraction as nat, amp as nat, in_idx as nat, out_idx as nat,
                min_price as nat, prev_price as nat, prev_weight as nat, prev_depth as nat, result as nat, in_amt as nat) == goal,
            spec_stableswap_liquidity(fee_fraction as nat, initial_a as nat, initial_a_time as nat,
                future_a as nat, future_a_time as nat, now as nat, reserves@, in_idx as nat, out_idx as nat)
                == finish_liquidity(goal, nominator as nat, denominator as nat),
        ensures
            goal == Some(total as nat),
        decreases in_amt,
    {
        let exhausted = in_amt == 0;
        let (depth0, price0, weight0) = if exhausted {
            (0, 0, 0)
        } else {
            probe(d, &reserves_norm, fee_fraction, amp, in_idx, out_idx, min_price, in_amt)?
        };
        let stop = exhausted || price0 > prev_price;
        if stop && prev_price < min_price {
            total = result;
            break;
        }
        let last = stop;
        let depth = if last { 0 } else { depth0 };
        let price = if last { min_price } else { price0 };
        let weight = if last { 1 } else { weight0 };
        let depth_sum = depth.checked_add(prev_depth)?;
        let weight_sum = weight.checked_add(prev_weight)?;
        let depth_avg = depth_sum / 2;
        let weight_avg = weight_sum / 2;
        let d_price = prev_price - price;
        let t1 = depth_avg.checked_mul(PRECISION)?;
        let t2 = t1.checked_mul(weight_avg)?;
        let t3 = t2 / PRECISION;
        let t4 = t3.checked_mul(d_price)?;
        let result2 = result.checked_add(t4 / PRECISION)?;
        let scaled = in_amt.checked_mul(100)?;
        let next = scaled / 125;
        if last {
            total = result2;
            break;
        }
        prev_price = price;
        prev_weight = weight;
        prev_depth = depth;
        result = result2;
        in_amt = next;
    }
    let scaled_total = (total / PRECISION).checked_mul(nominator)?;
    if denominator == 0 {
        return None;
    }
    Some(scaled_total / denominator)
}


/// Liquidity of a stableswap pool at time `now` over the first `count` ordered token pairs
/// `(k / n, k % n)`, `n` the number of tokens: the sum of `spec_stableswap_liquidity` over
/// those with two distinct tokens; `None` when any of them is.
pub open spec fn spec_stableswap_pairs_sum(data: StableSwapPoolData, now: nat, count: nat) -> Option<nat>
    decreases count,
{
    if count == 0 {
        Some(0)
    } else {
        match spec_stableswap_pairs_sum(data, now, (count - 1) as nat) {
            None => None,
            Some(s) => {
                let n = data.xp@.len();
                let k = (count - 1) as nat;
                let i = k / n;
                let j = k % n;
                if i == j {
                    Some(s)
                } else {
                    match spec_stableswap_liquidity(data.fee as nat, data.initial_a as nat, data.initial_a_time as nat,
                        data.future_a as nat, data.future_a_time as nat, now, data.xp@, i, j) {
                        None => None,
                        Some(v) => Some(s + v),
                    }
                }
            },
        }
    }
}

/// Once a pair fails, the sum over more pairs fails too.
proof fn lemma_pairs_sum_none_persists(data: StableSwapPoolData, now: nat, count: nat, more: nat)
    requires
        spec_stableswap_pairs_sum(data, now, count) is None,
        count <= more,
    ensures
        spec_stableswap_pairs_sum(data, now, more) is None,
    decreases more - count,
{
    if count < more {
        lemma_pairs_sum_none_persists(data, now, count, (more - 1) as nat);
    }
}

/// Liquidity of a stableswap pool at time `now`: the sum of `get_liquidity` over every ordered
/// pair of distinct tokens (see `spec_stableswap_pairs_sum`); `None` when any pair's is.
pub fn stableswap_pool_total_liquidity(data: &StableSwapPoolData, now: u128) -> (r: Option<U256>)
    requires
        2 <= data.xp@.len() <= u32::MAX,
    ensures
        match spec_stableswap_pairs_sum(*data, now as nat, data.xp@.len() * data.xp@.len()) {
            Some(v) => r matches Some(x) && x@ == v,
            None => r is None,
        },
{
    let n: u64 = data.xp.len() as u64;
    proof {
        assert(n * n <= 0xffff_ffff_ffff_ffffnat) by (nonlinear_arith)
            requires n <= 0xffff_ffff;
    }
    let total: u64 = n * n;
    let mut k: u64 = 0;
    let mut sum = U256::zero();
    while k < total
        invariant
            n == data.xp@.len(),
            2 <= n <= u32::MAX,
            total == n * n,
            k <= total,
            spec_stableswap_pairs_sum(*data, now as nat, k as nat) == Some(sum@),
            sum@ <= k * u128::MAX,
        decreases total - k,
    {
        proof {
            assert(k / n < n) by (nonlinear_arith)
                requires k < n * n, n > 0;
        }
        let i = (k / n) as u32;
        let j = (k % n) as u32;
        if i != j {
            match get_liquidity(data.fee, data.initial_a, data.initial_a_time, data.future_a, data.future_a_time, now,
                &data.xp, i, j) {
                Some(v) => {
                    proof {
                        assert(sum@ + v < crate::u256::b256()) by (nonlinear_arith)
                            requires
                                sum@ <= k * u128::MAX,
                                k < 0x1_0000_0000_0000_0000,
                                v <= u128::MAX,
                                crate::u256::b256() == crate::u256::b128() * crate::u256::b128(),
                                crate::u256::b128() == u128::MAX + 1,
                        ;
                    }
                    sum = sum.add(&U256::from_u128(v));
                },
                None => {
                    proof {
                        lemma_pairs_sum_none_persists(*data, now as nat, k as nat + 1, (n * n) as nat);
                    }
                    return None;
                },
            }
        }
        k = k + 1;
    }
    Some(sum)
}

} // verus!
