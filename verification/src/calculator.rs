//! Liquidity estimates of pools from their published reserves.

use vstd::prelude::*;

verus! {

use crate::math::mul_div_u128;
use crate::u256::U256;

/// Multiplier applied to fee fractions (basis points).
pub const FEE_MULTIPLIER: u128 = 10000;

/// Scale of prices and weights.
pub const PRECISION: u128 = 1000000;

/// Reference magnitude reserves are normalized to.
pub const RESERVES_NORM: u128 = 10000000000;

/// Seven further floor steps `r := r * m / p` of the weight (p_min / p)^8.
pub open spec fn spec_weight_steps(r: nat, m: nat, p: nat, n: nat) -> nat
    decreases n,
{
    if n == 0 { r } else { spec_weight_steps((r * m) / p, m, p, (n - 1) as nat) }
}

/// Every intermediate product of the weight steps fits in `u128`.
pub open spec fn spec_weight_steps_fit(r: nat, m: nat, p: nat, n: nat) -> bool
    decreases n,
{
    n == 0 || (r * m <= u128::MAX && spec_weight_steps_fit((r * m) / p, m, p, (n - 1) as nat))
}

/// The weight PRECISION * (min_price / price)^8 computed by successive floor divisions;
/// zero for a zero price.
pub open spec fn spec_price_weight(price: nat, min_price: nat) -> nat {
    if price == 0 {
        0
    } else {
        spec_weight_steps(((PRECISION as nat) * min_price) / price, min_price, price, 7)
    }
}

/// The products of `price_weight` fit in `u128`.
pub open spec fn price_weight_fits(price: nat, min_price: nat) -> bool {
    price == 0 || ((PRECISION as nat) * min_price <= u128::MAX
        && spec_weight_steps_fit(((PRECISION as nat) * min_price) / price, min_price, price, 7))
}

/// Price weight with exponent (p_min / p)^8 in PRECISION units.
pub fn price_weight(price: u128, min_price: u128) -> (r: u128)
    requires
        price_weight_fits(price as nat, min_price as nat),
    ensures
        r as nat == spec_price_weight(price as nat, min_price as nat),
{
    if price == 0 {
        return 0;
    }
    let mut result = PRECISION * min_price / price;
    let mut i: u32 = 1;
    while i < 8
        invariant
            1 <= i <= 8,
            price > 0,
            spec_weight_steps_fit(result as nat, min_price as nat, price as nat, (8 - i) as nat),
            spec_price_weight(price as nat, min_price as nat)
                == spec_weight_steps(result as nat, min_price as nat, price as nat, (8 - i) as nat),
        decreases 8 - i,
    {
        result = result * min_price / price;
        i += 1;
    }
    result
}

/// The next probe amount: dx decreased geometrically to 100/125 of itself.
pub fn get_next_in_amt(in_amt: u128) -> (r: u128)
    requires
        in_amt * 100 <= u128::MAX,
    ensures
        r == in_amt * 100 / 125,
{
    in_amt * 100 / 125
}

/// The largest element of a sequence, zero when empty.
pub open spec fn spec_max_of(s: Seq<u128>) -> u128
    decreases s.len(),
{
    if s.len() == 0 {
        0
    } else {
        let m = spec_max_of(s.drop_last());
        if m < s.last() { s.last() } else { m }
    }
}

/// The largest reserve, zero for no reserves.
pub fn get_max_reserve(reserves: &Vec<u128>) -> (r: u128)
    ensures
        r == spec_max_of(reserves@),
        forall|i: int| 0 <= i < reserves@.len() ==> reserves@[i] <= r,
{
    let mut max_reserve: u128 = 0;
    let mut i: usize = 0;
    while i < reserves.len()
        invariant
            i <= reserves@.len(),
            max_reserve == spec_max_of(reserves@.subrange(0, i as int)),
            forall|k: int| 0 <= k < i ==> reserves@[k] <= max_reserve,
        decreases reserves@.len() - i,
    {
        let value = reserves[i];
        proof {
            assert(reserves@.subrange(0, i as int + 1).drop_last() == reserves@.subrange(0, i as int));
        }
        if max_reserve < value {
            max_reserve = value;
        }
        i += 1;
    }
    proof {
        assert(reserves@.subrange(0, reserves@.len() as int) == reserves@);
    }
    max_reserve
}

/// Reserves scaled toward RESERVES_NORM, with the (nominator, denominator) of the scaling.
pub open spec fn spec_normalize_reserves(reserves: Seq<u128>) -> (Seq<u128>, u128, u128) {
    let m = spec_max_of(reserves);
    if m == 0 {
        (reserves, 1, 1)
    } else if m > RESERVES_NORM * 2 {
        let n = (m / RESERVES_NORM) as u128;
        (reserves.map_values(|v: u128| (v / n) as u128), n, 1)
    } else if m < RESERVES_NORM / 2 {
        let d = (RESERVES_NORM / m) as u128;
        (reserves.map_values(|v: u128| (v * d) as u128), 1, d)
    } else {
        (reserves, 1, 1)
    }
}

/// Scales reserves toward RESERVES_NORM: large reserves are divided by `max / RESERVES_NORM`,
/// small ones multiplied by `RESERVES_NORM / max`.
pub fn normalize_reserves(reserves: &Vec<u128>) -> (r: (Vec<u128>, u128, u128))
    ensures
        (r.0@, r.1, r.2) == spec_normalize_reserves(reserves@),
{
    let mut reserves_norm = reserves.clone();
    let max_reserve = get_max_reserve(reserves);
    proof {
        assert(reserves_norm@ == reserves@);
    }
    if max_reserve == 0 {
        return (reserves_norm, 1, 1);
    }
    let mut nominator: u128 = 1;
    let mut denominator: u128 = 1;
    if max_reserve > RESERVES_NORM * 2 {
        nominator = max_reserve / RESERVES_NORM;
        let mut i: usize = 0;
        while i < reserves_norm.len()
            invariant
                reserves_norm@.len() == reserves@.len(),
                i <= reserves@.len(),
                nominator > 0,
                forall|k: int| 0 <= k < i ==> reserves_norm@[k] == reserves@[k] / nominator,
                forall|k: int| i <= k < reserves@.len() ==> reserves_norm@[k] == reserves@[k],
            decreases reserves@.len() - i,
        {
            let value = reserves_norm[i];
            reserves_norm.set(i, value / nominator);
            i += 1;
        }
        proof {
            assert(reserves_norm@ == reserves@.map_values(|v: u128| (v / nominator) as u128));
        }
    } else if max_reserve < RESERVES_NORM / 2 {
        denominator = RESERVES_NORM / max_reserve;
        let mut i: usize = 0;
        while i < reserves_norm.len()
            invariant
                reserves_norm@.len() == reserves@.len(),
                i <= reserves@.len(),
                denominator <= RESERVES_NORM,
                max_reserve < RESERVES_NORM / 2,
                forall|k: int| 0 <= k < reserves@.len() ==> reserves@[k] <= max_reserve,
                forall|k: int| 0 <= k < i ==> reserves_norm@[k] == reserves@[k] * denominator,
                forall|k: int| i <= k < reserves@.len() ==> reserves_norm@[k] == reserves@[k],
            decreases reserves@.len() - i,
        {
            let value = reserves_norm[i];
            proof {
                assert(value * denominator <= RESERVES_NORM * RESERVES_NORM) by (nonlinear_arith)
                    requires value <= RESERVES_NORM, denominator <= RESERVES_NORM;
            }
            reserves_norm.set(i, value * denominator);
            i += 1;
        }
        proof {
            assert(reserves_norm@ == reserves@.map_values(|v: u128| (v * denominator) as u128));
        }
    }
    (reserves_norm, nominator, denominator)
}

/// floor(x * y / z) in `u128`, `None` when `z` is zero or the result overflows.
pub open spec fn spec_fixed_mul_floor(x: nat, y: nat, z: nat) -> Option<nat> {
    if z == 0 {
        None
    } else if (x * y) / z <= u128::MAX {
        Some((x * y) / z)
    } else {
        None
    }
}

/// floor(x * y / z), `None` when `z` is zero or the result needs more than 128 bits.
pub fn fixed_mul_floor(x: u128, y: u128, z: u128) -> (r: Option<u128>)
    ensures
        r matches Some(v) ==> spec_fixed_mul_floor(x as nat, y as nat, z as nat) == Some(v as nat),
        r is None ==> spec_fixed_mul_floor(x as nat, y as nat, z as nat) is None,
{
    match mul_div_u128(x, y, z, false) {
        Ok(v) => Some(v),
        Err(_) => None,
    }
}

/// Liquidity of a constant-product reserve `x` at fee `fee_fraction`: x / (56 * (1 - F)),
/// in basis-point arithmetic.
pub open spec fn spec_chunk_liquidity(fee_fraction: nat, amount_in: nat) -> Option<nat> {
    if amount_in == 0 {
        Some(0nat)
    } else {
        spec_fixed_mul_floor(amount_in, FEE_MULTIPLIER as nat, (56 * (FEE_MULTIPLIER - fee_fraction)) as nat)
    }
}

/// Liquidity of a reserve `amount_in` at fee `fee_fraction`: floor(x * 10000 / (56 * (10000 - fee))).
pub fn chunk_liquidity(fee_fraction: u128, amount_in: u128) -> (r: Option<u128>)
    requires
        fee_fraction < FEE_MULTIPLIER,
    ensures
        r matches Some(v) ==> spec_chunk_liquidity(fee_fraction as nat, amount_in as nat) == Some(v as nat),
        r is None ==> spec_chunk_liquidity(fee_fraction as nat, amount_in as nat) is None,
{
    if amount_in == 0 {
        return Some(0);
    }
    fixed_mul_floor(amount_in, FEE_MULTIPLIER, 56 * (FEE_MULTIPLIER - fee_fraction))
}

/// Liquidity of a constant-product pool on the side of `reserve_in`:
/// floor(x * 10000 / (56 * (10000 - fee))).
pub fn standard_pool_liquidity(fee_fraction: u128, reserves: &Vec<u128>, in_idx: u32) -> (r: Option<u128>)
    requires
        fee_fraction < FEE_MULTIPLIER,
        in_idx < reserves@.len(),
    ensures
        r matches Some(v) ==> spec_fixed_mul_floor(reserves@[in_idx as int] as nat, FEE_MULTIPLIER as nat,
            (56 * (FEE_MULTIPLIER - fee_fraction)) as nat) == Some(v as nat),
        r is None ==> spec_fixed_mul_floor(reserves@[in_idx as int] as nat, FEE_MULTIPLIER as nat,
            (56 * (FEE_MULTIPLIER - fee_fraction)) as nat) is None,
{
    let x = reserves[in_idx as usize];
    fixed_mul_floor(x, FEE_MULTIPLIER, 56 * (FEE_MULTIPLIER - fee_fraction))
}

/// Liquidity of a constant-product pool: the sum of `standard_pool_liquidity` over both
/// directions of trade; `None` when either side is.
pub open spec fn spec_standard_pool_total(fee_fraction: u128, reserves: Seq<u128>) -> Option<nat> {
    let k = (56 * (FEE_MULTIPLIER - fee_fraction)) as nat;
    match spec_fixed_mul_floor(reserves[0] as nat, FEE_MULTIPLIER as nat, k) {
        None => None,
        Some(a) => match spec_fixed_mul_floor(reserves[1] as nat, FEE_MULTIPLIER as nat, k) {
            None => None,
            Some(b) => Some(a + b),
        },
    }
}

/// Liquidity of a constant-product pool over both directions of trade (see
/// `spec_standard_pool_total`).
pub fn standard_pool_total_liquidity(fee_fraction: u128, reserves: &Vec<u128>) -> (r: Option<U256>)
    requires
        fee_fraction < FEE_MULTIPLIER,
        reserves@.len() >= 2,
    ensures
        match spec_standard_pool_total(fee_fraction, reserves@) {
            Some(v) => r matches Some(x) && x@ == v,
            None => r is None,
        },
{
    let a = match standard_pool_liquidity(fee_fraction, reserves, 0) {
        Some(a) => a,
        None => return None,
    };
    let b = match standard_pool_liquidity(fee_fraction, reserves, 1) {
        Some(b) => b,
        None => return None,
    };
    proof {
        assert((a as nat) + (b as nat) < crate::u256::b256()) by (nonlinear_arith)
            requires
                (a as nat) <= u128::MAX,
                (b as nat) <= u128::MAX,
                crate::u256::b256() == crate::u256::b128() * crate::u256::b128(),
                crate::u256::b128() == u128::MAX + 1,
        ;
    }
    Some(U256::from_u128(a).add(&U256::from_u128(b)))
}


proof fn lemma_weight_steps_fit(r: nat, m: nat, p: nat, n: nat)
    requires
        m <= p,
        p > 0,
        r <= PRECISION,
        (PRECISION as nat) * m <= u128::MAX,
    ensures
        spec_weight_steps_fit(r, m, p, n),
    decreases n,
{
    if n > 0 {
        assert(r * m <= (PRECISION as nat) * m) by (nonlinear_arith) requires r <= PRECISION;
        assert(r * m <= r * p) by (nonlinear_arith) requires m <= p;
        assert((r * m) / p <= r) by {
            vstd::arithmetic::div_mod::lemma_div_is_ordered((r * m) as int, (r * p) as int, p as int);
            vstd::arithmetic::div_mod::lemma_div_multiples_vanish(r as int, p as int);
        }
        lemma_weight_steps_fit((r * m) / p, m, p, (n - 1) as nat);
    }
}

/// The weight of `price` against `reference_price`, always discounting the farther price:
/// `None` when PRECISION times the smaller price overflows.
pub open spec fn spec_relative_price_weight(price: nat, reference_price: nat) -> Option<nat> {
    if price == 0 || reference_price == 0 {
        Some(0nat)
    } else {
        let hi = if price >= reference_price { price } else { reference_price };
        let lo = if price >= reference_price { reference_price } else { price };
        if (PRECISION as nat) * lo <= u128::MAX { Some(spec_price_weight(hi, lo)) } else { None }
    }
}

/// Weight of a price relative to a reference price, (p_small / p_large)^8 in PRECISION units.
pub fn relative_price_weight(price: u128, reference_price: u128) -> (r: Option<u128>)
    ensures
        r matches Some(v) ==> spec_relative_price_weight(price as nat, reference_price as nat) == Some(v as nat),
        r is None ==> spec_relative_price_weight(price as nat, reference_price as nat) is None,
{
    if price == 0 || reference_price == 0 {
        return Some(0);
    }
    let (hi, lo) = if price >= reference_price { (price, reference_price) } else { (reference_price, price) };
    if lo > u128::MAX / PRECISION {
        return None;
    }
    proof {
        assert((PRECISION as nat) * (lo as nat) <= u128::MAX);
        assert(((PRECISION as nat) * (lo as nat)) / (hi as nat) <= PRECISION) by {
            assert((PRECISION as nat) * (lo as nat) <= (PRECISION as nat) * (hi as nat)) by (nonlinear_arith)
                requires lo <= hi;
            vstd::arithmetic::div_mod::lemma_div_is_ordered(((PRECISION as nat) * (lo as nat)) as int,
                ((PRECISION as nat) * (hi as nat)) as int, hi as int);
            vstd::arithmetic::div_mod::lemma_div_multiples_vanish(PRECISION as int, hi as int);
        }
        lemma_weight_steps_fit(((PRECISION as nat) * (lo as nat)) / (hi as nat), lo as nat, hi as nat, 7);
    }
    Some(price_weight(hi, lo))
}

/// Scale of the geometric step-growth approximation.
pub const STEP_GROWTH_SCALE: u128 = 1000000000000;

/// sqrt(1.0001) in STEP_GROWTH_SCALE units.
pub const SQRT_TICK_BASE_FP: u128 = 1000049998750;

/// base^exp in STEP_GROWTH_SCALE fixed point by square-and-multiply, flooring each product.
pub open spec fn spec_pow_fold(result: nat, base: nat, exp: nat) -> Option<nat>
    decreases exp,
{
    if exp == 0 {
        Some(result)
    } else {
        let r2 = if exp % 2 == 1 {
            spec_fixed_mul_floor(result, base, STEP_GROWTH_SCALE as nat)
        } else {
            Some(result)
        };
        let e2 = exp / 2;
        let b2 = if e2 > 0 { spec_fixed_mul_floor(base, base, STEP_GROWTH_SCALE as nat) } else { Some(base) };
        match (r2, b2) {
            (Some(r), Some(b)) => spec_pow_fold(r, b, e2),
            _ => None,
        }
    }
}

/// base^exp in STEP_GROWTH_SCALE fixed point; `None` when an intermediate product overflows.
pub fn fixed_pow_step_growth(base0: u128, exp0: u32) -> (r: Option<u128>)
    ensures
        r matches Some(v) ==> spec_pow_fold(STEP_GROWTH_SCALE as nat, base0 as nat, exp0 as nat) == Some(v as nat),
        r is None ==> spec_pow_fold(STEP_GROWTH_SCALE as nat, base0 as nat, exp0 as nat) is None,
{
    let mut result = STEP_GROWTH_SCALE;
    let mut base = base0;
    let mut exp = exp0;
    while exp > 0
        invariant
            spec_pow_fold(STEP_GROWTH_SCALE as nat, base0 as nat, exp0 as nat)
                == spec_pow_fold(result as nat, base as nat, exp as nat),
        decreases exp,
    {
        let ghost (r0, b0, e0) = (result as nat, base as nat, exp as nat);
        if exp % 2 == 1 {
            match fixed_mul_floor(result, base, STEP_GROWTH_SCALE) {
                Some(v) => {
                    result = v;
                },
                None => {
                    return None;
                },
            }
        }
        exp = exp / 2;
        if exp > 0 {
            match fixed_mul_floor(base, base, STEP_GROWTH_SCALE) {
                Some(v) => {
                    base = v;
                },
                None => {
                    proof {
                        assert(spec_pow_fold(r0, b0, e0) is None);
                    }
                    return None;
                },
            }
        }
        proof {
            assert(spec_pow_fold(r0, b0, e0) == spec_pow_fold(result as nat, base as nat, exp as nat));
        }
    }
    Some(result)
}


/// Sum clipped to `u128::MAX`.
pub open spec fn sat_add(a: nat, b: nat) -> nat {
    if a + b > u128::MAX { u128::MAX as nat } else { a + b }
}

/// Difference clipped at zero.
pub open spec fn sat_sub(a: nat, b: nat) -> nat {
    if a >= b { (a - b) as nat } else { 0 }
}

/// Local virtual reserve of one exact step: dx / (sqrt(1.0001)^(spacing * (step + 1)) - 1).
pub open spec fn spec_step_virtual_input(amount_in: nat, tick_spacing: int, step: nat) -> Option<nat> {
    if amount_in == 0 || tick_spacing <= 0 {
        Some(amount_in)
    } else {
        let raw = tick_spacing * (step + 1);
        let delta: nat = if raw > u32::MAX { u32::MAX as nat } else { raw as nat };
        match spec_pow_fold(STEP_GROWTH_SCALE as nat, SQRT_TICK_BASE_FP as nat, delta) {
            None => None,
            Some(g) => if g <= STEP_GROWTH_SCALE {
                Some(amount_in)
            } else {
                spec_fixed_mul_floor(amount_in, STEP_GROWTH_SCALE as nat, (g - STEP_GROWTH_SCALE) as nat)
            },
        }
    }
}

/// Local virtual reserve for an exact step of the published price ladder.
pub fn step_virtual_input(amount_in: u128, tick_spacing: i32, step: u32) -> (r: Option<u128>)
    ensures
        r matches Some(v) ==> spec_step_virtual_input(amount_in as nat, tick_spacing as int, step as nat) == Some(v as nat),
        r is None ==> spec_step_virtual_input(amount_in as nat, tick_spacing as int, step as nat) is None,
{
    if amount_in == 0 || tick_spacing <= 0 {
        return Some(amount_in);
    }
    // step k spans (k+1)*tick_spacing ticks
    let steps_plus_one: u64 = step as u64 + 1;
    proof {
        assert((steps_plus_one as int) * (tick_spacing as int) <= 0x1_0000_0000int * 0x8000_0000int)
            by (nonlinear_arith)
            requires steps_plus_one <= 0x1_0000_0000int, 0 < tick_spacing < 0x8000_0000int;
        assert((steps_plus_one as int) * (tick_spacing as int) == (tick_spacing as int) * (step as int + 1))
            by (nonlinear_arith) requires steps_plus_one == step + 1;
    }
    let raw: u64 = steps_plus_one * (tick_spacing as u64);
    let delta_ticks: u32 = if raw > u32::MAX as u64 { u32::MAX } else { raw as u32 };
    let sqrt_growth = match fixed_pow_step_growth(SQRT_TICK_BASE_FP, delta_ticks) {
        Some(g) => g,
        None => {
            return None;
        },
    };
    if sqrt_growth <= STEP_GROWTH_SCALE {
        return Some(amount_in);
    }
    fixed_mul_floor(amount_in, STEP_GROWTH_SCALE, sqrt_growth - STEP_GROWTH_SCALE)
}

/// Snapshot of a concentrated pool as published to the plane.
pub struct ConcentratedPoolData {
    pub fee: u128,
    pub tick_spacing: i32,
    pub steps: u32,
    pub full_range_reserve0: u128,
    pub full_range_reserve1: u128,
    pub reserves: Vec<u128>,
}

/// Element `i` of a sequence, zero past its end.
pub open spec fn get_or_zero(s: Seq<u128>, i: nat) -> u128 {
    if i < s.len() { s[i as int] } else { 0 }
}

/// Offset of the first published step pair.
pub const RESERVES_PREFIX_SIZE: u32 = 4;

/// The (amount in, amount out) pair of an exact step starting at `base_offset`.
pub open spec fn spec_step_pair(data: &ConcentratedPoolData, step: nat, base_offset: nat) -> (u128, u128) {
    if step >= data.steps {
        (0, 0)
    } else {
        let in_raw = base_offset + 2 * step;
        let in_idx: nat = if in_raw > u32::MAX { u32::MAX as nat } else { in_raw };
        let out_idx: nat = if in_idx + 1 > u32::MAX { u32::MAX as nat } else { in_idx + 1 };
        (get_or_zero(data.reserves@, in_idx), get_or_zero(data.reserves@, out_idx))
    }
}

/// The exact step pair for the direction selling token `in_idx`.
pub open spec fn spec_step_amounts(data: &ConcentratedPoolData, in_idx: nat, step: nat) -> (u128, u128) {
    if in_idx == 0 {
        spec_step_pair(data, step, RESERVES_PREFIX_SIZE as nat)
    } else {
        let second = RESERVES_PREFIX_SIZE + 2 * data.steps;
        spec_step_pair(data, step, if second > u32::MAX { u32::MAX as nat } else { second as nat })
    }
}

fn get_or_zero_exec(v: &Vec<u128>, i: u32) -> (r: u128)
    ensures
        r == get_or_zero(v@, i as nat),
{
    if (i as usize) < v.len() {
        v[i as usize]
    } else {
        0
    }
}

fn saturating_add_u32(a: u32, b: u32) -> (r: u32)
    ensures
        r as nat == (if a + b > u32::MAX { u32::MAX as nat } else { (a + b) as nat }),
{
    match a.checked_add(b) {
        Some(v) => v,
        None => u32::MAX,
    }
}

impl ConcentratedPoolData {
    /// The published reserve `idx`, zero when absent.
    pub fn reserve(&self, idx: u32) -> (r: u128)
        ensures
            r == get_or_zero(self.reserves@, idx as nat),
    {
        get_or_zero_exec(&self.reserves, idx)
    }

    /// The full-range reserve of the sold token.
    pub fn full_range_in(&self, in_idx: u32) -> (r: u128)
        ensures
            r == (if in_idx == 0 { self.full_range_reserve0 } else { self.full_range_reserve1 }),
    {
        if in_idx == 0 {
            self.full_range_reserve0
        } else {
            self.full_range_reserve1
        }
    }

    /// The full-range reserve of the bought token.
    pub fn full_range_out(&self, out_idx: u32) -> (r: u128)
        ensures
            r == (if out_idx == 0 { self.full_range_reserve0 } else { self.full_range_reserve1 }),
    {
        if out_idx == 0 {
            self.full_range_reserve0
        } else {
            self.full_range_reserve1
        }
    }

    fn step_pair(&self, step: u32, base_offset: u32) -> (r: (u128, u128))
        ensures
            r == spec_step_pair(self, step as nat, base_offset as nat),
    {
        if step >= self.steps {
            return (0, 0);
        }
        let in_idx = saturating_add_u32(base_offset, crate::plane::saturating_mul_u32(step, 2));
        let out_idx = saturating_add_u32(in_idx, 1);
        (get_or_zero_exec(&self.reserves, in_idx), get_or_zero_exec(&self.reserves, out_idx))
    }

    /// The exact step pair selling token0.
    pub fn step_0_to_1(&self, step: u32) -> (r: (u128, u128))
        ensures
            r == spec_step_amounts(self, 0, step as nat),
    {
        self.step_pair(step, RESERVES_PREFIX_SIZE)
    }

    /// The exact step pair selling token1.
    pub fn step_1_to_0(&self, step: u32) -> (r: (u128, u128))
        ensures
            r == spec_step_amounts(self, 1, step as nat),
    {
        self.step_pair(step, saturating_add_u32(RESERVES_PREFIX_SIZE, crate::plane::saturating_mul_u32(self.steps, 2)))
    }
}

/// The exact step pair for the direction selling token `in_idx`.
pub fn step_amounts(data: &ConcentratedPoolData, in_idx: u32, step: u32) -> (r: (u128, u128))
    ensures
        r == spec_step_amounts(data, in_idx as nat, step as nat),
{
    if in_idx == 0 {
        data.step_0_to_1(step)
    } else {
        data.step_1_to_0(step)
    }
}

/// Reads the published snapshot `[version=1, fee, tick_spacing, steps]` and
/// `[reserve0, reserve1, full_range0, full_range1, steps...]`, clipping the spacing to
/// `i32::MAX` and the step count to `u32::MAX`.
pub fn parse_concentrated_data(init_args: &Vec<u128>, reserves: Vec<u128>) -> (r: ConcentratedPoolData)
    requires
        init_args@.len() >= 4,
        init_args@[0] == 1,
    ensures
        r.fee == init_args@[1],
        r.tick_spacing as int == (if init_args@[2] > i32::MAX { i32::MAX as int } else { init_args@[2] as int }),
        r.steps as int == (if init_args@[3] > u32::MAX { u32::MAX as int } else { init_args@[3] as int }),
        r.full_range_reserve0 == get_or_zero(reserves@, 2),
        r.full_range_reserve1 == get_or_zero(reserves@, 3),
        r.reserves@ == reserves@,
{
    let fee = init_args[1];
    let tick_spacing_raw = init_args[2];
    let tick_spacing: i32 = if tick_spacing_raw > i32::MAX as u128 { i32::MAX } else { tick_spacing_raw as i32 };
    let steps_u128 = init_args[3];
    let steps: u32 = if steps_u128 > u32::MAX as u128 { u32::MAX } else { steps_u128 as u32 };
    let full_range_reserve0 = get_or_zero_exec(&reserves, 2);
    let full_range_reserve1 = get_or_zero_exec(&reserves, 3);
    ConcentratedPoolData { fee, tick_spacing, steps, full_range_reserve0, full_range_reserve1, reserves }
}


/// Accumulates the exact steps `k..steps`: (near liquidity, raw input, edge weight), or
/// `None` when an intermediate product overflows.
pub open spec fn spec_near_window(
    data: &ConcentratedPoolData,
    in_idx: nat,
    steps: nat,
    k: nat,
    near: nat,
    raw: nat,
    reference: nat,
    edge: nat,
) -> Option<(nat, nat, nat)>
    decreases steps - k,
{
    if k >= steps {
        Some((near, raw, edge))
    } else {
        let (ain, aout) = spec_step_amounts(data, in_idx, k);
        if ain == 0 || aout == 0 {
            spec_near_window(data, in_idx, steps, k + 1, near, raw, reference, edge)
        } else {
            match spec_step_virtual_input(ain as nat, data.tick_spacing as int, k) {
                None => None,
                Some(vin) => match spec_chunk_liquidity(data.fee as nat, vin) {
                    None => None,
                    Some(cl) => {
                        let near2 = sat_add(near, cl);
                        let raw2 = sat_add(raw, ain as nat);
                        match spec_fixed_mul_floor(ain as nat, PRECISION as nat, aout as nat) {
                            None => None,
                            Some(price) => if price == 0 {
                                spec_near_window(data, in_idx, steps, k + 1, near2, raw2, reference, edge)
                            } else {
                                let ref2 = if reference == 0 { price } else { reference };
                                match spec_relative_price_weight(price, ref2) {
                                    None => None,
                                    Some(w) => spec_near_window(data, in_idx, steps, k + 1, near2, raw2, ref2, w),
                                }
                            },
                        }
                    },
                },
            }
        }
    }
}

/// Sums the exact near-price steps as independent local pools: (near liquidity, raw input,
/// weight of the last step relative to the first).
pub fn near_window_liquidity(data: &ConcentratedPoolData, in_idx: u32, steps: u32) -> (r: Option<(u128, u128, u128)>)
    requires
        data.fee < FEE_MULTIPLIER,
    ensures
        r matches Some(t) ==> spec_near_window(data, in_idx as nat, steps as nat, 0, 0, 0, 0, 0)
            == Some((t.0 as nat, t.1 as nat, t.2 as nat)),
        r is None ==> spec_near_window(data, in_idx as nat, steps as nat, 0, 0, 0, 0, 0) is None,
{
    let fee_fraction = data.fee;
    let mut near_liquidity: u128 = 0;
    let mut raw_in: u128 = 0;
    let mut reference_price: u128 = 0;
    let mut edge_weight: u128 = 0;
    let mut step: u32 = 0;
    while step < steps
        invariant
            step <= steps,
            fee_fraction == data.fee,
            data.fee < FEE_MULTIPLIER,
            spec_near_window(data, in_idx as nat, steps as nat, 0, 0, 0, 0, 0)
                == spec_near_window(data, in_idx as nat, steps as nat, step as nat,
                    near_liquidity as nat, raw_in as nat, reference_price as nat, edge_weight as nat),
        decreases steps - step,
    {
        let (amount_in, amount_out) = step_amounts(data, in_idx, step);
        if amount_in == 0 || amount_out == 0 {
            // zero-sized near steps are skipped, farther steps may still have depth
            step += 1;
            continue;
        }
        let virtual_in = match step_virtual_input(amount_in, data.tick_spacing, step) {
            Some(v) => v,
            None => {
                return None;
            },
        };
        let chunk = match chunk_liquidity(fee_fraction, virtual_in) {
            Some(v) => v,
            None => {
                return None;
            },
        };
        near_liquidity = near_liquidity.saturating_add(chunk);
        raw_in = raw_in.saturating_add(amount_in);
        let price = match fixed_mul_floor(amount_in, PRECISION, amount_out) {
            Some(v) => v,
            None => {
                return None;
            },
        };
        if price == 0 {
            step += 1;
            continue;
        }
        if reference_price == 0 {
            reference_price = price;
        }
        edge_weight = match relative_price_weight(price, reference_price) {
            Some(v) => v,
            None => {
                return None;
            },
        };
        step += 1;
    }
    Some((near_liquidity, raw_in, edge_weight))
}

/// Estimated liquidity of a concentrated pool on the side of token `in_idx`.
pub open spec fn spec_concentrated_liquidity(data: &ConcentratedPoolData, in_idx: nat) -> Option<nat> {
    let reserve_in = get_or_zero(data.reserves@, in_idx);
    if reserve_in == 0 {
        Some(0nat)
    } else {
        let fr = if in_idx == 0 { data.full_range_reserve0 } else { data.full_range_reserve1 };
        let full_range_in: nat = if fr < reserve_in { fr as nat } else { reserve_in as nat };
        let exact_steps: nat = if data.tick_spacing > 0 { data.steps as nat } else { 0 };
        match spec_near_window(data, in_idx, exact_steps, 0, 0, 0, 0, 0) {
            None => None,
            Some((near, near_raw, edge)) => {
                let remaining = sat_sub(sat_sub(reserve_in as nat, full_range_in), near_raw);
                let tail_in = if edge == 0 {
                    Some(remaining)
                } else {
                    spec_fixed_mul_floor(remaining, edge, PRECISION as nat)
                };
                match (tail_in, spec_chunk_liquidity(data.fee as nat, full_range_in)) {
                    (Some(t), Some(frl)) => match spec_chunk_liquidity(data.fee as nat, t) {
                        Some(tl) => Some(sat_add(sat_add(frl, near), tl)),
                        None => None,
                    },
                    _ => None,
                }
            },
        }
    }
}

/// Liquidity of a concentrated pool on the side of `in_idx`: full-range liquidity, plus the
/// exact near steps, plus the remaining reserve discounted by the edge weight.
pub fn concentrated_pool_liquidity(data: &ConcentratedPoolData, in_idx: u32) -> (r: Option<u128>)
    requires
        data.fee < FEE_MULTIPLIER,
    ensures
        r matches Some(v) ==> spec_concentrated_liquidity(data, in_idx as nat) == Some(v as nat),
        r is None ==> spec_concentrated_liquidity(data, in_idx as nat) is None,
{
    let reserve_in = data.reserve(in_idx);
    if reserve_in == 0 {
        return Some(0);
    }
    let fr = data.full_range_in(in_idx);
    let full_range_in = if fr < reserve_in { fr } else { reserve_in };
    let fee_fraction = data.fee;
    let exact_steps = if data.tick_spacing > 0 { data.steps } else { 0 };
    let (near_liquidity, near_raw_in, edge_weight) = match near_window_liquidity(data, in_idx, exact_steps) {
        Some(t) => t,
        None => {
            return None;
        },
    };
    let remaining_in = reserve_in.saturating_sub(full_range_in).saturating_sub(near_raw_in);
    let tail_in = if edge_weight == 0 {
        remaining_in
    } else {
        match fixed_mul_floor(remaining_in, edge_weight, PRECISION) {
            Some(v) => v,
            None => {
                return None;
            },
        }
    };
    let full_range_liquidity = match chunk_liquidity(fee_fraction, full_range_in) {
        Some(v) => v,
        None => {
            return None;
        },
    };
    let tail_liquidity = match chunk_liquidity(fee_fraction, tail_in) {
        Some(v) => v,
        None => {
            return None;
        },
    };
    Some(full_range_liquidity.saturating_add(near_liquidity).saturating_add(tail_liquidity))
}


/// The near window's liquidity never passes `u128::MAX` when it starts below it.
proof fn lemma_near_window_bounded(data: &ConcentratedPoolData, in_idx: nat, steps: nat, k: nat, near: nat, raw: nat,
    reference: nat, edge: nat)
    requires
        near <= u128::MAX,
    ensures
        spec_near_window(data, in_idx, steps, k, near, raw, reference, edge) matches Some((n, _, _)) ==> n <= u128::MAX,
    decreases steps - k,
{
    if k < steps {
        let (ain, aout) = spec_step_amounts(data, in_idx, k);
        if ain == 0 || aout == 0 {
            lemma_near_window_bounded(data, in_idx, steps, k + 1, near, raw, reference, edge);
        } else if let Some(vin) = spec_step_virtual_input(ain as nat, data.tick_spacing as int, k) {
            if let Some(cl) = spec_chunk_liquidity(data.fee as nat, vin) {
                let near2 = sat_add(near, cl);
                let raw2 = sat_add(raw, ain as nat);
                if let Some(price) = spec_fixed_mul_floor(ain as nat, PRECISION as nat, aout as nat) {
                    if price == 0 {
                        lemma_near_window_bounded(data, in_idx, steps, k + 1, near2, raw2, reference, edge);
                    } else {
                        let ref2 = if reference == 0 { price } else { reference };
                        if let Some(w) = spec_relative_price_weight(price, ref2) {
                            lemma_near_window_bounded(data, in_idx, steps, k + 1, near2, raw2, ref2, w);
                        }
                    }
                }
            }
        }
    }
}

/// The chunk liquidity of published steps `k..steps` on the side of `in_idx`: each step with
/// nonzero amounts contributes the chunk liquidity of its virtual input.
pub open spec fn spec_near_steps_sum(data: &ConcentratedPoolData, in_idx: nat, steps: nat, k: nat) -> nat
    decreases steps - k,
{
    if k >= steps {
        0
    } else {
        let (ain, aout) = spec_step_amounts(data, in_idx, k);
        let here: nat = if ain == 0 || aout == 0 {
            0
        } else {
            match spec_step_virtual_input(ain as nat, data.tick_spacing as int, k) {
                Some(vin) => match spec_chunk_liquidity(data.fee as nat, vin) {
                    Some(cl) => cl,
                    None => 0,
                },
                None => 0,
            }
        };
        here + spec_near_steps_sum(data, in_idx, steps, k + 1)
    }
}

/// The near window's liquidity is the running total plus the chunk liquidity of every
/// published step with nonzero amounts (each from its virtual input), saturating at
/// `u128::MAX`.
pub proof fn law_near_window_sums_the_steps(data: &ConcentratedPoolData, in_idx: nat, steps: nat, k: nat, near: nat,
    raw: nat, reference: nat, edge: nat)
    requires
        near <= u128::MAX,
    ensures
        spec_near_window(data, in_idx, steps, k, near, raw, reference, edge) matches Some((n, _, _))
            ==> n == (if near + spec_near_steps_sum(data, in_idx, steps, k) > u128::MAX { u128::MAX as nat }
                else { near + spec_near_steps_sum(data, in_idx, steps, k) }),
    decreases steps - k,
{
    if k < steps {
        let (ain, aout) = spec_step_amounts(data, in_idx, k);
        if ain == 0 || aout == 0 {
            law_near_window_sums_the_steps(data, in_idx, steps, k + 1, near, raw, reference, edge);
        } else if let Some(vin) = spec_step_virtual_input(ain as nat, data.tick_spacing as int, k) {
            if let Some(cl) = spec_chunk_liquidity(data.fee as nat, vin) {
                let near2 = sat_add(near, cl);
                let raw2 = sat_add(raw, ain as nat);
                if let Some(price) = spec_fixed_mul_floor(ain as nat, PRECISION as nat, aout as nat) {
                    if price == 0 {
                        law_near_window_sums_the_steps(data, in_idx, steps, k + 1, near2, raw2, reference, edge);
                    } else {
                        let ref2 = if reference == 0 { price } else { reference };
                        if let Some(w) = spec_relative_price_weight(price, ref2) {
                            law_near_window_sums_the_steps(data, in_idx, steps, k + 1, near2, raw2, ref2, w);
                        }
                    }
                }
            }
        }
    }
}

/// The liquidity of a concentrated pool on one side is the saturating sum of its three parts:
/// the full-range reserve's chunk liquidity, the near window of exact steps
/// (`spec_near_window`: the chunk liquidity of each published step's virtual input), and the
/// chunk liquidity of the remaining reserve discounted by the edge weight. So it is at least
/// each part, and an empty side has none.
pub proof fn law_concentrated_liquidity_sums_its_parts(data: &ConcentratedPoolData, in_idx: nat)
    ensures
        get_or_zero(data.reserves@, in_idx) == 0 ==> spec_concentrated_liquidity(data, in_idx) == Some(0nat),
        ({
            let reserve_in = get_or_zero(data.reserves@, in_idx);
            let fr = if in_idx == 0 { data.full_range_reserve0 } else { data.full_range_reserve1 };
            let full_range_in: nat = if fr < reserve_in { fr as nat } else { reserve_in as nat };
            let steps: nat = if data.tick_spacing > 0 { data.steps as nat } else { 0 };
            reserve_in > 0 ==> (spec_concentrated_liquidity(data, in_idx) matches Some(r) ==> (
                spec_near_window(data, in_idx, steps, 0, 0, 0, 0, 0) matches Some((near, near_raw, edge))
                && spec_chunk_liquidity(data.fee as nat, full_range_in) matches Some(frl)
                && {
                    let remaining = sat_sub(sat_sub(reserve_in as nat, full_range_in), near_raw);
                    let tail_in: nat = if edge == 0 { remaining } else { (remaining * edge) / (PRECISION as nat) };
                    spec_chunk_liquidity(data.fee as nat, tail_in) matches Some(tl)
                    && r >= near && r >= frl && r >= tl
                    && r == (if frl + near + tl > u128::MAX { u128::MAX as nat } else { frl + near + tl })
                }))
        }),
{
    let reserve_in = get_or_zero(data.reserves@, in_idx);
    let fr = if in_idx == 0 { data.full_range_reserve0 } else { data.full_range_reserve1 };
    let full_range_in: nat = if fr < reserve_in { fr as nat } else { reserve_in as nat };
    let steps: nat = if data.tick_spacing > 0 { data.steps as nat } else { 0 };
    lemma_near_window_bounded(data, in_idx, steps, 0, 0, 0, 0, 0);
    if reserve_in > 0 {
        if let Some((near, near_raw, edge)) = spec_near_window(data, in_idx, steps, 0, 0, 0, 0, 0) {
            let remaining = sat_sub(sat_sub(reserve_in as nat, full_range_in), near_raw);
            if edge != 0 {
                if let Some(t) = spec_fixed_mul_floor(remaining, edge, PRECISION as nat) {
                    assert(t == (remaining * edge) / (PRECISION as nat));
                }
            }
        }
    }
}

} // verus!
