//! Price and amount arithmetic of the pool in Q64.96 / Q128.128 fixed point.

use vstd::prelude::*;

verus! {

use crate::errors::ConcentratedPoolError as Error;
use crate::fixed_point::{
    fixed_mul_ceil_u128, fixed_mul_floor_u128, spec_u128_mul_div_ceil, spec_u128_mul_div_floor,
};
use crate::u256::{b128, b256, lemma_u256_bound, U256};
use crate::u512::{mul_div_ceil, mul_div_floor, spec_mul_div};

/// 2^96 as a mathematical integer.
pub open spec fn q96() -> nat {
    0x1_0000_0000_0000_0000_0000_0000nat
}

/// 2^96, the unit of Q64.96 prices.
pub fn u256_q96() -> (r: U256)
    ensures
        r@ == q96(),
{
    U256::from_u128(0x1_0000_0000_0000_0000_0000_0000u128)
}

/// 2^128, the unit of Q128.128 fee growth.
pub fn u256_q128() -> (r: U256)
    ensures
        r@ == b128(),
{
    U256::from_words(1, 0)
}

/// (a - b) modulo 2^256, as fee-growth accumulators wrap.
pub fn wrapping_sub_u256(a: &U256, b: &U256) -> (r: U256)
    ensures
        r@ == (a@ + b256() - b@) % (b256() as int),
{
    a.wrapping_sub_raw(b)
}

/// (a + b) modulo 2^256, as fee-growth accumulators wrap.
pub fn wrapping_add_u256(a: &U256, b: &U256) -> (r: U256)
    ensures
        r@ == (a@ + b@) % b256(),
{
    a.wrapping_add(b)
}

/// The value as `u128`, or `LiquidityOverflow` when it does not fit.
pub fn u256_to_u128(value: &U256) -> (r: Result<u128, Error>)
    ensures
        value@ < b128() ==> r == Ok::<u128, Error>(value@ as u128),
        value@ >= b128() ==> r == Err::<u128, Error>(Error::LiquidityOverflow),
{
    match value.to_u128() {
        Some(v) => Ok(v),
        None => Err(Error::LiquidityOverflow),
    }
}

/// ceil(n / d) as a mathematical integer.
pub open spec fn spec_div_ceil(n: nat, d: nat) -> nat
    recommends
        d > 0,
{
    if n % d == 0 {
        n / d
    } else {
        n / d + 1
    }
}

/// ceil(numerator / denominator); `InvalidAmount` for a zero denominator.
pub fn u256_div_round_up(numerator: &U256, denominator: &U256) -> (r: Result<U256, Error>)
    ensures
        denominator@ == 0 ==> r == Err::<U256, Error>(Error::InvalidAmount),
        denominator@ > 0 ==> (r matches Ok(v) && v@ == spec_div_ceil(numerator@, denominator@)),
{
    if denominator.is_zero() {
        return Err(Error::InvalidAmount);
    }
    if numerator.is_zero() {
        return Ok(U256::zero());
    }
    let (quotient, remainder) = numerator.div_rem(denominator);
    if !remainder.is_zero() {
        proof {
            lemma_u256_bound(*numerator);
            vstd::arithmetic::div_mod::lemma_fundamental_div_mod(
                numerator@ as int,
                denominator@ as int,
            );
            assert(numerator@ / denominator@ + 1 <= numerator@) by (nonlinear_arith)
                requires
                    numerator@ % denominator@ > 0,
                    denominator@ > 0,
                    numerator@ == denominator@ * (numerator@ / denominator@)
                        + numerator@ % denominator@,
            {
            }
            vstd::arithmetic::div_mod::lemma_fundamental_div_mod(
                numerator@ as int,
                denominator@ as int,
            );
        }
        Ok(quotient.add(&U256::one()))
    } else {
        Ok(quotient)
    }
}

/// floor(a * b / 2^128); the caller ensures the product fits in 256 bits.
pub fn u256_mul_shift_128(a: &U256, b: &U256) -> (r: U256)
    requires
        a@ * b@ < b256(),
    ensures
        r@ == (a@ * b@) / b128(),
{
    a.mul(b).div(&u256_q128())
}

/// The rounded quotient of `u256_mul_div`: the product must fit in 256 bits, as the
/// fixed-point helpers of the host multiply before they divide.
pub open spec fn spec_u256_mul_div(a: nat, b: nat, d: nat, round_up: bool) -> Result<nat, Error> {
    if d == 0 {
        Err(Error::InvalidAmount)
    } else if a * b >= b256() {
        Err(Error::LiquidityOverflow)
    } else if round_up {
        Ok(crate::u512::spec_mul_div_ceil(a, b, d))
    } else {
        Ok(crate::u512::spec_mul_div_floor(a, b, d))
    }
}

/// Rounded a * b / d with a 256-bit product: `InvalidAmount` for a zero denominator,
/// `LiquidityOverflow` when the product does not fit in 256 bits.
pub fn u256_mul_div(a: &U256, b: &U256, denominator: &U256, round_up: bool) -> (r: Result<U256, Error>)
    ensures
        r matches Ok(v) ==> spec_u256_mul_div(a@, b@, denominator@, round_up) == Ok::<nat, Error>(v@),
        r matches Err(e) ==> spec_u256_mul_div(a@, b@, denominator@, round_up) == Err::<nat, Error>(e),
{
    if denominator.is_zero() {
        return Err(Error::InvalidAmount);
    }
    match crate::u256::checked_mul(a, b) {
        None => Err(Error::LiquidityOverflow),
        Some(product) => {
            let (q, rem) = product.div_rem(denominator);
            if round_up && !rem.is_zero() {
                proof {
                    lemma_u256_bound(product);
                    vstd::arithmetic::div_mod::lemma_fundamental_div_mod(
                        product@ as int,
                        denominator@ as int,
                    );
                    assert(q@ + 1 <= product@) by (nonlinear_arith)
                        requires
                            rem@ > 0,
                            denominator@ > 0,
                            product@ == denominator@ * q@ + rem@,
                    {
                    }
                }
                Ok(q.add(&U256::one()))
            } else {
                Ok(q)
            }
        },
    }
}

/// The rounded quotient of `mul_div_u128`.
pub open spec fn spec_mul_div_u128(amount: nat, numerator: nat, denominator: nat, round_up: bool) -> Result<nat, Error> {
    if denominator == 0 {
        Err(Error::InvalidAmount)
    } else {
        let v = if round_up {
            crate::u512::spec_mul_div_ceil(amount, numerator, denominator)
        } else {
            crate::u512::spec_mul_div_floor(amount, numerator, denominator)
        };
        if v <= u128::MAX {
            Ok(v)
        } else {
            Err(Error::LiquidityOverflow)
        }
    }
}

/// Rounded amount * numerator / denominator in `u128`, widening to 256 bits when the product
/// overflows: `InvalidAmount` for a zero denominator, `LiquidityOverflow` when the result does
/// not fit in `u128`.
pub fn mul_div_u128(amount: u128, numerator: u128, denominator: u128, round_up: bool) -> (r: Result<u128, Error>)
    ensures
        r matches Ok(v) ==> spec_mul_div_u128(amount as nat, numerator as nat, denominator as nat, round_up) == Ok::<nat, Error>(v as nat),
        r matches Err(e) ==> spec_mul_div_u128(amount as nat, numerator as nat, denominator as nat, round_up) == Err::<nat, Error>(e),
{
    if denominator == 0 {
        return Err(Error::InvalidAmount);
    }
    let narrow = if round_up {
        fixed_mul_ceil_u128(amount, numerator, denominator)
    } else {
        fixed_mul_floor_u128(amount, numerator, denominator)
    };
    match narrow {
        Some(v) => {
            proof {
                let p: nat = (amount as nat) * (numerator as nat);
                let d: nat = denominator as nat;
                assert(p == amount * numerator);
                assert(p <= u128::MAX);
                vstd::arithmetic::div_mod::lemma_fundamental_div_mod(p as int, d as int);
                assert(p / d <= p) by {
                    vstd::arithmetic::div_mod::lemma_div_is_ordered_by_denominator(p as int, 1, d as int);
                }
                if round_up {
                    if p % d != 0 {
                        assert(p / d + 1 <= p) by (nonlinear_arith)
                            requires p % d > 0, d > 0, p == d * (p / d) + p % d;
                    }
                    assert(v as nat == crate::u512::spec_mul_div_ceil(amount as nat, numerator as nat, d));
                } else {
                    assert(v as nat == crate::u512::spec_mul_div_floor(amount as nat, numerator as nat, d));
                }
            }
            Ok(v)
        },
        None => {
            let wide = if round_up {
                mul_div_ceil(
                    &U256::from_u128(amount),
                    &U256::from_u128(numerator),
                    &U256::from_u128(denominator),
                )
            } else {
                mul_div_floor(
                    &U256::from_u128(amount),
                    &U256::from_u128(numerator),
                    &U256::from_u128(denominator),
                )
            };
            proof {
                assert((amount as nat) * (numerator as nat) < b256()) by (nonlinear_arith)
                    requires amount < b128(), numerator < b128();
                assert(crate::u512::spec_mul_div_floor(amount as nat, numerator as nat, denominator as nat)
                    <= amount as nat * numerator as nat) by {
                    vstd::arithmetic::div_mod::lemma_div_is_ordered_by_denominator(
                        (amount as nat * numerator as nat) as int, 1, denominator as int);
                }
            }
            match wide {
                Some(v) => match v.to_u128() {
                    Some(x) => Ok(x),
                    None => Err(Error::LiquidityOverflow),
                },
                None => Err(Error::LiquidityOverflow),
            }
        },
    }
}


/// The rounded quotient a * b / d (d > 0) as a mathematical integer.
pub open spec fn spec_round_div(a: nat, b: nat, d: nat, round_up: bool) -> nat {
    if round_up {
        crate::u512::spec_mul_div_ceil(a, b, d)
    } else {
        crate::u512::spec_mul_div_floor(a, b, d)
    }
}

/// Token0 amount between two sqrt prices at liquidity `l`:
/// round(round(l * 2^96 * (hi - lo) / hi) / lo), or `None` when the lower price is zero.
pub open spec fn spec_amount0_delta(sa: nat, sb: nat, l: nat, round_up: bool) -> Option<nat> {
    if l == 0 {
        Some(0nat)
    } else {
        let lo = if sa > sb { sb } else { sa };
        let hi = if sa > sb { sa } else { sb };
        if lo == 0 {
            None
        } else {
            let temp = spec_round_div(l * q96(), (hi - lo) as nat, hi, round_up);
            Some(spec_round_div(temp, 1, lo, round_up))
        }
    }
}

/// Token1 amount between two sqrt prices at liquidity `l`: round(l * (hi - lo) / 2^96),
/// or `None` when it needs more than 256 bits.
pub open spec fn spec_amount1_delta(sa: nat, sb: nat, l: nat, round_up: bool) -> Option<nat> {
    if l == 0 {
        Some(0nat)
    } else {
        let lo = if sa > sb { sb } else { sa };
        let hi = if sa > sb { sa } else { sb };
        let v = spec_round_div(l, (hi - lo) as nat, q96(), round_up);
        if v < b256() {
            Some(v)
        } else {
            None
        }
    }
}

/// A value clipped to `u128::MAX`.
pub open spec fn saturate_u128(v: nat) -> u128 {
    if v <= u128::MAX {
        v as u128
    } else {
        u128::MAX
    }
}

proof fn lemma_round_div_le(a: nat, b: nat, d: nat, round_up: bool)
    requires
        b < d,
        d > 0,
    ensures
        spec_round_div(a, b, d, round_up) <= a,
{
    vstd::arithmetic::div_mod::lemma_fundamental_div_mod((a * b) as int, d as int);
    assert(a * b <= a * d) by (nonlinear_arith) requires b < d;
    if a == 0 {
        assert(a * b == 0);
    } else {
        assert(a * b < a * d) by (nonlinear_arith) requires b < d, a > 0;
        assert((a * b) / d < a) by (nonlinear_arith)
            requires a * b < a * d, d > 0, a * b == d * ((a * b) / d) + (a * b) % d, (a * b) % d >= 0;
    }
}

proof fn lemma_round_div_one(a: nat, d: nat, round_up: bool)
    requires
        d > 0,
    ensures
        spec_round_div(a, 1, d, round_up) == (if round_up { spec_div_ceil(a, d) } else { a / d }),
        spec_round_div(a, 1, d, round_up) <= a,
{
    assert(a * 1 == a);
    vstd::arithmetic::div_mod::lemma_fundamental_div_mod(a as int, d as int);
    vstd::arithmetic::div_mod::lemma_div_is_ordered_by_denominator(a as int, 1, d as int);
    if a % d != 0 {
        assert(a / d + 1 <= a) by (nonlinear_arith)
            requires a % d > 0, d > 0, a == d * (a / d) + a % d;
    }
}

/// Token0 amount clipped to `u128::MAX`, or `InvalidSqrtPrice` when the lower price is zero.
pub open spec fn amount0_delta_spec(sa: nat, sb: nat, l: nat, round_up: bool) -> Result<u128, Error> {
    match spec_amount0_delta(sa, sb, l, round_up) {
        Some(v) => Ok(saturate_u128(v)),
        None => Err(Error::InvalidSqrtPrice),
    }
}

/// Token1 amount clipped to `u128::MAX`.
pub open spec fn amount1_delta_spec(sa: nat, sb: nat, l: nat, round_up: bool) -> u128 {
    match spec_amount1_delta(sa, sb, l, round_up) {
        Some(v) => saturate_u128(v),
        None => u128::MAX,
    }
}

/// Token0 amount between two sqrt prices, unbounded; `None` when the lower price is zero.
fn amount0_delta_u256(sqrt_price_a_x96: &U256, sqrt_price_b_x96: &U256, liquidity: u128, round_up: bool) -> (r: Option<U256>)
    ensures
        r matches Some(v) ==> spec_amount0_delta(sqrt_price_a_x96@, sqrt_price_b_x96@, liquidity as nat, round_up) == Some(v@),
        r is None ==> spec_amount0_delta(sqrt_price_a_x96@, sqrt_price_b_x96@, liquidity as nat, round_up) is None,
{
    if liquidity == 0 {
        return Some(U256::zero());
    }
    let (sa, sb) = if sqrt_price_a_x96.gt(sqrt_price_b_x96) {
        (*sqrt_price_b_x96, *sqrt_price_a_x96)
    } else {
        (*sqrt_price_a_x96, *sqrt_price_b_x96)
    };
    if sa.is_zero() {
        return None;
    }
    let diff = sb.sub(&sa);
    let liquidity_u256 = U256::from_u128(liquidity);
    proof {
        assert((liquidity as nat) * q96() < b256()) by (nonlinear_arith)
            requires liquidity < b128();
    }
    let numerator1 = liquidity_u256.mul(&u256_q96());
    let ghost temp_v = spec_round_div(numerator1@, diff@, sb@, round_up);
    proof {
        lemma_round_div_le(numerator1@, diff@, sb@, round_up);
        lemma_u256_bound(numerator1);
        assert(numerator1@ * diff@ > 0 || numerator1@ * diff@ == 0);
    }
    let temp = if round_up {
        mul_div_ceil(&numerator1, &diff, &sb)
    } else {
        mul_div_floor(&numerator1, &diff, &sb)
    };
    let temp = match temp {
        Some(t) => t,
        None => {
            proof {
                if numerator1@ * diff@ == 0 {
                    assert(false);
                }
            }
            return None;
        },
    };
    proof {
        if numerator1@ * diff@ == 0 {
            assert(temp@ == 0);
            assert(temp_v == 0) by {
                vstd::arithmetic::div_mod::lemma_fundamental_div_mod(0, sb@ as int);
            }
        }
        assert(temp@ == temp_v);
        lemma_round_div_one(temp@, sa@, round_up);
    }
    let amount = if round_up {
        match u256_div_round_up(&temp, &sa) {
            Ok(v) => v,
            Err(_) => {
                return None;
            },
        }
    } else {
        temp.div(&sa)
    };
    Some(amount)
}

/// Token1 amount between two sqrt prices, or `None` when it needs more than 256 bits.
fn amount1_delta_u256(sqrt_price_a_x96: &U256, sqrt_price_b_x96: &U256, liquidity: u128, round_up: bool) -> (r: Option<U256>)
    ensures
        r matches Some(v) ==> spec_amount1_delta(sqrt_price_a_x96@, sqrt_price_b_x96@, liquidity as nat, round_up) == Some(v@),
        r is None ==> spec_amount1_delta(sqrt_price_a_x96@, sqrt_price_b_x96@, liquidity as nat, round_up) is None,
{
    if liquidity == 0 {
        return Some(U256::zero());
    }
    let (sa, sb) = if sqrt_price_a_x96.gt(sqrt_price_b_x96) {
        (*sqrt_price_b_x96, *sqrt_price_a_x96)
    } else {
        (*sqrt_price_a_x96, *sqrt_price_b_x96)
    };
    let diff = sb.sub(&sa);
    let liquidity_u256 = U256::from_u128(liquidity);
    let r = if round_up {
        mul_div_ceil(&liquidity_u256, &diff, &u256_q96())
    } else {
        mul_div_floor(&liquidity_u256, &diff, &u256_q96())
    };
    proof {
        if liquidity_u256@ * diff@ == 0 {
            vstd::arithmetic::div_mod::lemma_fundamental_div_mod(0, q96() as int);
        }
    }
    r
}

/// Token0 amount between two sqrt prices at the given liquidity, clipped to `u128::MAX`;
/// `InvalidSqrtPrice` when the lower price is zero.
pub fn amount0_delta(sqrt_price_a_x96: &U256, sqrt_price_b_x96: &U256, liquidity: u128, round_up: bool) -> (r: Result<u128, Error>)
    ensures
        r == amount0_delta_spec(sqrt_price_a_x96@, sqrt_price_b_x96@, liquidity as nat, round_up),
{
    match amount0_delta_u256(sqrt_price_a_x96, sqrt_price_b_x96, liquidity, round_up) {
        Some(v) => match v.to_u128() {
            Some(x) => Ok(x),
            None => Ok(u128::MAX),
        },
        None => Err(Error::InvalidSqrtPrice),
    }
}

/// Token0 amount between two sqrt prices, or `None` when the lower price is zero or the
/// amount exceeds `u128::MAX`.
pub fn try_amount0_delta(sqrt_price_a_x96: &U256, sqrt_price_b_x96: &U256, liquidity: u128, round_up: bool) -> (r: Option<u128>)
    ensures
        r == (match spec_amount0_delta(sqrt_price_a_x96@, sqrt_price_b_x96@, liquidity as nat, round_up) {
            Some(v) => if v <= u128::MAX { Some(v as u128) } else { None::<u128> },
            None => None::<u128>,
        }),
{
    match amount0_delta_u256(sqrt_price_a_x96, sqrt_price_b_x96, liquidity, round_up) {
        Some(v) => v.to_u128(),
        None => None,
    }
}

/// Token1 amount between two sqrt prices at the given liquidity, clipped to `u128::MAX`.
pub fn amount1_delta(sqrt_price_a_x96: &U256, sqrt_price_b_x96: &U256, liquidity: u128, round_up: bool) -> (r: u128)
    ensures
        r == amount1_delta_spec(sqrt_price_a_x96@, sqrt_price_b_x96@, liquidity as nat, round_up),
{
    match amount1_delta_u256(sqrt_price_a_x96, sqrt_price_b_x96, liquidity, round_up) {
        Some(v) => match v.to_u128() {
            Some(x) => x,
            None => u128::MAX,
        },
        None => u128::MAX,
    }
}

/// Token1 amount between two sqrt prices, or `None` when it exceeds `u128::MAX`.
pub fn try_amount1_delta(sqrt_price_a_x96: &U256, sqrt_price_b_x96: &U256, liquidity: u128, round_up: bool) -> (r: Option<u128>)
    ensures
        r == (match spec_amount1_delta(sqrt_price_a_x96@, sqrt_price_b_x96@, liquidity as nat, round_up) {
            Some(v) => if v <= u128::MAX { Some(v as u128) } else { None::<u128> },
            None => None::<u128>,
        }),
{
    match amount1_delta_u256(sqrt_price_a_x96, sqrt_price_b_x96, liquidity, round_up) {
        Some(v) => v.to_u128(),
        None => None,
    }
}


proof fn lemma_round_div_le_product(a: nat, b: nat, d: nat, round_up: bool)
    requires
        d > 0,
    ensures
        spec_round_div(a, b, d, round_up) <= a * b,
{
    vstd::arithmetic::div_mod::lemma_fundamental_div_mod((a * b) as int, d as int);
    vstd::arithmetic::div_mod::lemma_div_is_ordered_by_denominator((a * b) as int, 1, d as int);
    if (a * b) % d != 0 {
        assert((a * b) / d + 1 <= a * b) by (nonlinear_arith)
            requires (a * b) % d > 0, d > 0, a * b == d * ((a * b) / d) + (a * b) % d;
    }
}

/// Fee growth per unit of liquidity in Q128.128: floor(fee * 2^128 / liquidity),
/// zero when either input is zero.
pub fn fee_growth_delta_x128(fee_amount: u128, liquidity: u128) -> (r: U256)
    ensures
        r@ == (if fee_amount == 0 || liquidity == 0 { 0nat } else {
            (fee_amount as nat * b128()) / (liquidity as nat)
        }),
{
    if fee_amount == 0 || liquidity == 0 {
        return U256::zero();
    }
    proof {
        assert((fee_amount as nat) * b128() < b256()) by (nonlinear_arith)
            requires fee_amount < b128();
    }
    let product = U256::from_u128(fee_amount).mul(&u256_q128());
    product.div(&U256::from_u128(liquidity))
}

/// Tokens owed for a fee-growth delta: floor(growth * liquidity / 2^128).
pub open spec fn spec_mul_div_fee_growth(growth: nat, liquidity: nat) -> Result<nat, Error> {
    if liquidity == 0 {
        Ok(0nat)
    } else if growth * liquidity >= b256() {
        Err(Error::LiquidityOverflow)
    } else if (growth * liquidity) / b128() > u128::MAX {
        Err(Error::LiquidityOverflow)
    } else {
        Ok((growth * liquidity) / b128())
    }
}

/// Tokens owed for a fee-growth delta; `LiquidityOverflow` when the product needs more than
/// 256 bits or the result more than 128 bits.
pub fn mul_div_fee_growth(growth_delta_x128: &U256, liquidity: u128) -> (r: Result<u128, Error>)
    ensures
        r matches Ok(v) ==> spec_mul_div_fee_growth(growth_delta_x128@, liquidity as nat) == Ok::<nat, Error>(v as nat),
        r matches Err(e) ==> spec_mul_div_fee_growth(growth_delta_x128@, liquidity as nat) == Err::<nat, Error>(e),
{
    if liquidity == 0 {
        return Ok(0);
    }
    let value = u256_mul_div(growth_delta_x128, &U256::from_u128(liquidity), &u256_q128(), false)?;
    u256_to_u128(&value)
}

/// The larger of two naturals.
pub open spec fn nat_max(a: nat, b: nat) -> nat {
    if a > b { a } else { b }
}

/// The smaller of two naturals.
pub open spec fn nat_min(a: nat, b: nat) -> nat {
    if a > b { b } else { a }
}

/// Liquidity mintable from `amount` of token0 over a price range:
/// floor(amount * floor(lo * hi / 2^96) / (hi - lo)).
pub open spec fn spec_liquidity_for_amount0(sa: nat, sb: nat, amount: nat) -> Result<nat, Error> {
    let lo = nat_min(sa, sb);
    let hi = nat_max(sa, sb);
    if amount == 0 || hi == lo {
        Ok(0nat)
    } else {
        let inter = (lo * hi) / q96();
        let res = (amount * inter) / ((hi - lo) as nat);
        if inter < b256() && res <= u128::MAX {
            Ok(res)
        } else {
            Err(Error::LiquidityOverflow)
        }
    }
}

/// Liquidity mintable from `amount` of token1 over a price range:
/// floor(amount * 2^96 / (hi - lo)).
pub open spec fn spec_liquidity_for_amount1(sa: nat, sb: nat, amount: nat) -> Result<nat, Error> {
    let lo = nat_min(sa, sb);
    let hi = nat_max(sa, sb);
    if amount == 0 || hi == lo {
        Ok(0nat)
    } else {
        let res = (amount * q96()) / ((hi - lo) as nat);
        if res <= u128::MAX {
            Ok(res)
        } else {
            Err(Error::LiquidityOverflow)
        }
    }
}

/// Maximum liquidity mintable from a given amount of token0; `LiquidityOverflow` when it
/// does not fit in `u128`.
pub fn liquidity_for_amount0(sqrt_price_a_x96: &U256, sqrt_price_b_x96: &U256, amount0: u128) -> (r: Result<u128, Error>)
    ensures
        r matches Ok(v) ==> spec_liquidity_for_amount0(sqrt_price_a_x96@, sqrt_price_b_x96@, amount0 as nat) == Ok::<nat, Error>(v as nat),
        r matches Err(e) ==> spec_liquidity_for_amount0(sqrt_price_a_x96@, sqrt_price_b_x96@, amount0 as nat) == Err::<nat, Error>(e),
{
    if amount0 == 0 {
        return Ok(0);
    }
    let (sa, sb) = if sqrt_price_a_x96.gt(sqrt_price_b_x96) {
        (*sqrt_price_b_x96, *sqrt_price_a_x96)
    } else {
        (*sqrt_price_a_x96, *sqrt_price_b_x96)
    };
    let diff = sb.sub(&sa);
    if diff.is_zero() {
        return Ok(0);
    }
    let intermediate = match mul_div_floor(&sa, &sb, &u256_q96()) {
        Some(v) => v,
        None => {
            return Err(Error::LiquidityOverflow);
        },
    };
    proof {
        if sa@ * sb@ == 0 {
            vstd::arithmetic::div_mod::lemma_fundamental_div_mod(0, q96() as int);
        }
    }
    let amount_u256 = U256::from_u128(amount0);
    let result = match mul_div_floor(&amount_u256, &intermediate, &diff) {
        Some(v) => v,
        None => {
            return Err(Error::LiquidityOverflow);
        },
    };
    proof {
        if amount_u256@ * intermediate@ == 0 {
            vstd::arithmetic::div_mod::lemma_fundamental_div_mod(0, diff@ as int);
        }
    }
    u256_to_u128(&result)
}

/// Maximum liquidity mintable from a given amount of token1; `LiquidityOverflow` when it
/// does not fit in `u128`.
pub fn liquidity_for_amount1(sqrt_price_a_x96: &U256, sqrt_price_b_x96: &U256, amount1: u128) -> (r: Result<u128, Error>)
    ensures
        r matches Ok(v) ==> spec_liquidity_for_amount1(sqrt_price_a_x96@, sqrt_price_b_x96@, amount1 as nat) == Ok::<nat, Error>(v as nat),
        r matches Err(e) ==> spec_liquidity_for_amount1(sqrt_price_a_x96@, sqrt_price_b_x96@, amount1 as nat) == Err::<nat, Error>(e),
{
    if amount1 == 0 {
        return Ok(0);
    }
    let (sa, sb) = if sqrt_price_a_x96.gt(sqrt_price_b_x96) {
        (*sqrt_price_b_x96, *sqrt_price_a_x96)
    } else {
        (*sqrt_price_a_x96, *sqrt_price_b_x96)
    };
    let diff = sb.sub(&sa);
    if diff.is_zero() {
        return Ok(0);
    }
    let amount_u256 = U256::from_u128(amount1);
    let result = match mul_div_floor(&amount_u256, &u256_q96(), &diff) {
        Some(v) => v,
        None => {
            return Err(Error::LiquidityOverflow);
        },
    };
    u256_to_u128(&result)
}


/// The lowest admissible sqrt price, 4295128739.
pub open spec fn spec_min_sqrt_ratio() -> nat {
    4295128739nat
}

/// The highest admissible sqrt price (exclusive), 1461446703485210103287273052203988822378723970342.
pub open spec fn spec_max_sqrt_ratio() -> nat {
    1461446703485210103287273052203988822378723970342nat
}

/// The lowest admissible sqrt price.
pub fn min_sqrt_ratio() -> (r: U256)
    ensures
        r@ == spec_min_sqrt_ratio(),
{
    U256::from_u128(crate::constants::MIN_SQRT_RATIO_U128)
}

/// The highest admissible sqrt price (exclusive).
pub fn max_sqrt_ratio() -> (r: U256)
    ensures
        r@ == spec_max_sqrt_ratio(),
{
    U256::from_words(crate::constants::MAX_SQRT_RATIO_HI, crate::constants::MAX_SQRT_RATIO_LO)
}

/// The sqrt price after adding (`add`) or removing token0 `amount` at liquidity `l`.
pub open spec fn spec_next_sqrt_price_from_amount0(p: nat, l: nat, amount: nat, add: bool) -> Result<nat, Error> {
    if amount == 0 {
        Ok(p)
    } else if p == 0 {
        Err(Error::InvalidSqrtPrice)
    } else {
        let num1 = l * q96();
        let threshold = ((b256() - 1) as nat) / p;
        if add {
            if amount <= threshold {
                let den = num1 + amount * p;
                if den >= b256() {
                    Err(Error::LiquidityOverflow)
                } else {
                    Ok(spec_round_div(num1, p, den, true))
                }
            } else {
                Ok(spec_div_ceil(num1, num1 / p + amount))
            }
        } else if amount <= threshold {
            if num1 <= amount * p {
                Err(Error::PriceOutOfBounds)
            } else {
                let v = spec_round_div(num1, p, (num1 - amount * p) as nat, true);
                if v < b256() {
                    Ok(v)
                } else {
                    Err(Error::LiquidityOverflow)
                }
            }
        } else {
            Err(Error::PriceOutOfBounds)
        }
    }
}

/// The next sqrt price given a token0 amount added to (`add`) or taken from the pool.
pub fn get_next_sqrt_price_from_amount0(sqrt_price_x96: &U256, liquidity: u128, amount: u128, add: bool) -> (r: Result<U256, Error>)
    ensures
        r matches Ok(v) ==> spec_next_sqrt_price_from_amount0(sqrt_price_x96@, liquidity as nat, amount as nat, add) == Ok::<nat, Error>(v@),
        r matches Err(e) ==> spec_next_sqrt_price_from_amount0(sqrt_price_x96@, liquidity as nat, amount as nat, add) == Err::<nat, Error>(e),
{
    if amount == 0 {
        return Ok(*sqrt_price_x96);
    }
    if sqrt_price_x96.is_zero() {
        return Err(Error::InvalidSqrtPrice);
    }
    proof {
        assert((liquidity as nat) * q96() < b256()) by (nonlinear_arith)
            requires liquidity < b128();
        lemma_u256_bound(*sqrt_price_x96);
    }
    let numerator1 = U256::from_u128(liquidity).mul(&u256_q96());
    let amt = U256::from_u128(amount);
    let threshold = U256::max_value().div(sqrt_price_x96);
    proof {
        let p = sqrt_price_x96@;
        let t = threshold@;
        let m: nat = (b256() - 1) as nat;
        vstd::arithmetic::div_mod::lemma_fundamental_div_mod(m as int, p as int);
        if amount <= t {
            assert((amount as nat) * p <= t * p) by (nonlinear_arith) requires amount <= t;
            assert(t * p <= b256() - 1) by (nonlinear_arith)
                requires m == p * t + m % p, m % p >= 0, m == b256() - 1;
        }
    }
    if add {
        if amt.le(&threshold) {
            let product = amt.mul(sqrt_price_x96);
            let denominator = match numerator1.checked_add(&product) {
                Some(v) => v,
                None => {
                    return Err(Error::LiquidityOverflow);
                },
            };
            proof {
                assert(product@ > 0) by (nonlinear_arith)
                    requires product@ == amt@ * sqrt_price_x96@, amt@ > 0, sqrt_price_x96@ > 0;
                lemma_round_div_le(sqrt_price_x96@, numerator1@, denominator@, true);
                if numerator1@ > 0 {
                    assert(sqrt_price_x96@ * numerator1@ == numerator1@ * sqrt_price_x96@) by (nonlinear_arith);
                    assert(numerator1@ * sqrt_price_x96@ > 0) by (nonlinear_arith)
                        requires numerator1@ > 0, sqrt_price_x96@ > 0;
                }
                if numerator1@ == 0 {
                    assert(numerator1@ * sqrt_price_x96@ == 0) by (nonlinear_arith)
                        requires numerator1@ == 0;
                    vstd::arithmetic::div_mod::lemma_fundamental_div_mod(0, denominator@ as int);
                    assert(sqrt_price_x96@ * numerator1@ == 0) by (nonlinear_arith)
                        requires numerator1@ == 0;
                }
                assert(spec_round_div(numerator1@, sqrt_price_x96@, denominator@, true)
                    == spec_round_div(sqrt_price_x96@, numerator1@, denominator@, true));
            }
            match mul_div_ceil(&numerator1, sqrt_price_x96, &denominator) {
                Some(v) => Ok(v),
                None => Err(Error::LiquidityOverflow),
            }
        } else {
            let term = numerator1.div(sqrt_price_x96);
            proof {
                vstd::arithmetic::div_mod::lemma_div_is_ordered_by_denominator(
                    numerator1@ as int, 1, sqrt_price_x96@ as int);
                assert(term@ + amt@ < b256());
            }
            let denominator = term.add(&amt);
            u256_div_round_up(&numerator1, &denominator)
        }
    } else {
        if amt.le(&threshold) {
            let product = amt.mul(sqrt_price_x96);
            if numerator1.le(&product) {
                return Err(Error::PriceOutOfBounds);
            }
            let denominator = numerator1.sub(&product);
            proof {
                assert(numerator1@ * sqrt_price_x96@ > 0) by (nonlinear_arith)
                    requires numerator1@ > 0, sqrt_price_x96@ > 0;
            }
            match mul_div_ceil(&numerator1, sqrt_price_x96, &denominator) {
                Some(v) => Ok(v),
                None => Err(Error::LiquidityOverflow),
            }
        } else {
            Err(Error::PriceOutOfBounds)
        }
    }
}

/// The sqrt price after adding (`add`) or removing token1 `amount` at liquidity `l`;
/// `InvalidAmount` at zero liquidity, where the division has no divisor.
pub open spec fn spec_next_sqrt_price_from_amount1(p: nat, l: nat, amount: nat, add: bool) -> Result<nat, Error> {
    if l == 0 {
        Err(Error::InvalidAmount)
    } else {
        let quotient = spec_round_div(amount, q96(), l, !add);
        if add {
            if p + quotient < b256() {
                Ok(p + quotient)
            } else {
                Err(Error::PriceOutOfBounds)
            }
        } else if p <= quotient {
            Err(Error::PriceOutOfBounds)
        } else {
            Ok((p - quotient) as nat)
        }
    }
}

/// The next sqrt price given a token1 amount added to (`add`) or taken from the pool.
pub fn get_next_sqrt_price_from_amount1(sqrt_price_x96: &U256, liquidity: u128, amount: u128, add: bool) -> (r: Result<U256, Error>)
    ensures
        r matches Ok(v) ==> spec_next_sqrt_price_from_amount1(sqrt_price_x96@, liquidity as nat, amount as nat, add) == Ok::<nat, Error>(v@),
        r matches Err(e) ==> spec_next_sqrt_price_from_amount1(sqrt_price_x96@, liquidity as nat, amount as nat, add) == Err::<nat, Error>(e),
{
    let liq = U256::from_u128(liquidity);
    let amt = U256::from_u128(amount);
    proof {
        assert((amount as nat) * q96() < b256()) by (nonlinear_arith)
            requires amount < b128();
        if liquidity > 0 {
            lemma_round_div_le_product(amount as nat, q96(), liquidity as nat, !add);
        }
        if amount == 0 {
            assert((amount as nat) * q96() == 0);
        }
    }
    let quotient = if add {
        mul_div_floor(&amt, &u256_q96(), &liq)
    } else {
        mul_div_ceil(&amt, &u256_q96(), &liq)
    };
    let quotient = match quotient {
        Some(q) => q,
        None => {
            return Err(Error::InvalidAmount);
        },
    };
    if add {
        match sqrt_price_x96.checked_add(&quotient) {
            Some(v) => Ok(v),
            None => Err(Error::PriceOutOfBounds),
        }
    } else {
        if sqrt_price_x96.le(&quotient) {
            return Err(Error::PriceOutOfBounds);
        }
        Ok(sqrt_price_x96.sub(&quotient))
    }
}

/// The next sqrt price after an input amount of the sold token.
pub fn get_next_sqrt_price_from_input(sqrt_price_x96: &U256, liquidity: u128, amount_in: u128, zero_for_one: bool) -> (r: Result<U256, Error>)
    ensures
        zero_for_one ==> (r matches Ok(v) ==> spec_next_sqrt_price_from_amount0(sqrt_price_x96@, liquidity as nat, amount_in as nat, true) == Ok::<nat, Error>(v@)),
        zero_for_one ==> (r matches Err(e) ==> spec_next_sqrt_price_from_amount0(sqrt_price_x96@, liquidity as nat, amount_in as nat, true) == Err::<nat, Error>(e)),
        !zero_for_one ==> (r matches Ok(v) ==> spec_next_sqrt_price_from_amount1(sqrt_price_x96@, liquidity as nat, amount_in as nat, true) == Ok::<nat, Error>(v@)),
        !zero_for_one ==> (r matches Err(e) ==> spec_next_sqrt_price_from_amount1(sqrt_price_x96@, liquidity as nat, amount_in as nat, true) == Err::<nat, Error>(e)),
{
    if zero_for_one {
        get_next_sqrt_price_from_amount0(sqrt_price_x96, liquidity, amount_in, true)
    } else {
        get_next_sqrt_price_from_amount1(sqrt_price_x96, liquidity, amount_in, true)
    }
}

/// The next sqrt price after an output amount of the bought token.
pub fn get_next_sqrt_price_from_output(sqrt_price_x96: &U256, liquidity: u128, amount_out: u128, zero_for_one: bool) -> (r: Result<U256, Error>)
    ensures
        zero_for_one ==> (r matches Ok(v) ==> spec_next_sqrt_price_from_amount1(sqrt_price_x96@, liquidity as nat, amount_out as nat, false) == Ok::<nat, Error>(v@)),
        zero_for_one ==> (r matches Err(e) ==> spec_next_sqrt_price_from_amount1(sqrt_price_x96@, liquidity as nat, amount_out as nat, false) == Err::<nat, Error>(e)),
        !zero_for_one ==> (r matches Ok(v) ==> spec_next_sqrt_price_from_amount0(sqrt_price_x96@, liquidity as nat, amount_out as nat, false) == Ok::<nat, Error>(v@)),
        !zero_for_one ==> (r matches Err(e) ==> spec_next_sqrt_price_from_amount0(sqrt_price_x96@, liquidity as nat, amount_out as nat, false) == Err::<nat, Error>(e)),
{
    if zero_for_one {
        get_next_sqrt_price_from_amount1(sqrt_price_x96, liquidity, amount_out, false)
    } else {
        get_next_sqrt_price_from_amount0(sqrt_price_x96, liquidity, amount_out, false)
    }
}


/// Floor square root: the largest `s` with `s * s <= n`.
pub fn sqrt_floor(n: &U256) -> (r: U256)
    ensures
        r@ * r@ <= n@ < (r@ + 1) * (r@ + 1),
{
    let mut lo = U256::zero();
    let mut hi = U256::from_words(1, 0);
    proof {
        lemma_u256_bound(*n);
        assert(b128() * b128() == b256());
    }
    while hi.sub(&lo).gt(&U256::one())
        invariant
            lo@ < hi@ <= b128(),
            lo@ * lo@ <= n@,
            n@ < hi@ * hi@,
        decreases hi@ - lo@,
    {
        let half = hi.sub(&lo).div(&U256::from_u32(2));
        let mid = lo.add(&half);
        proof {
            assert(mid@ < b128());
            assert(mid@ * mid@ < b256()) by (nonlinear_arith)
                requires mid@ < b128(), b256() == b128() * b128();
        }
        let sq = mid.mul(&mid);
        if sq.le(n) {
            lo = mid;
        } else {
            hi = mid;
        }
    }
    proof {
        assert(hi@ == lo@ + 1);
    }
    lo
}

/// The sqrt price of the token ratio: floor(sqrt(floor(amount1 * 2^192 / amount0))).
pub open spec fn spec_price_ratio_q192(amount0: nat, amount1: nat) -> nat {
    (amount1 * (q96() * q96())) / amount0
}

/// Q64.96 sqrt price of the ratio amount1 / amount0: `InvalidAmount` when either amount is
/// zero, `PriceOutOfBounds` when the price lies outside the admissible range.
pub fn sqrt_price_from_amounts(amount0: u128, amount1: u128) -> (r: Result<U256, Error>)
    ensures
        (amount0 == 0 || amount1 == 0) ==> r == Err::<U256, Error>(Error::InvalidAmount),
        (amount0 > 0 && amount1 > 0) ==> ({
            let ratio = spec_price_ratio_q192(amount0 as nat, amount1 as nat);
            let in_range = ratio < b256()
                && spec_min_sqrt_ratio() * spec_min_sqrt_ratio() <= ratio
                && ratio < spec_max_sqrt_ratio() * spec_max_sqrt_ratio();
            &&& in_range ==> (r matches Ok(s) && s@ * s@ <= ratio < (s@ + 1) * (s@ + 1))
            &&& !in_range ==> r == Err::<U256, Error>(Error::PriceOutOfBounds)
        }),
{
    if amount0 == 0 || amount1 == 0 {
        return Err(Error::InvalidAmount);
    }
    let q192 = U256::from_words(0x1_0000_0000_0000_0000u128, 0);
    proof {
        assert(q192@ == q96() * q96());
        assert((amount1 as nat) * q192@ > 0) by (nonlinear_arith)
            requires amount1 > 0, q192@ > 0;
    }
    let ratio_q192 = match mul_div_floor(&U256::from_u128(amount1), &q192, &U256::from_u128(amount0)) {
        Some(v) => v,
        None => {
            return Err(Error::PriceOutOfBounds);
        },
    };
    let sqrt_price = sqrt_floor(&ratio_q192);
    let min = min_sqrt_ratio();
    let max = max_sqrt_ratio();
    proof {
        let s = sqrt_price@;
        let n = ratio_q192@;
        let a = spec_min_sqrt_ratio();
        let b = spec_max_sqrt_ratio();
        if s < a {
            assert((s + 1) * (s + 1) <= a * a) by (nonlinear_arith) requires s + 1 <= a;
        } else {
            assert(a * a <= s * s) by (nonlinear_arith) requires a <= s;
        }
        if s >= b {
            assert(b * b <= s * s) by (nonlinear_arith) requires b <= s;
        } else {
            assert((s + 1) * (s + 1) <= b * b) by (nonlinear_arith) requires s + 1 <= b;
        }
    }
    if sqrt_price.lt(&min) || sqrt_price.ge(&max) {
        return Err(Error::PriceOutOfBounds);
    }
    Ok(sqrt_price)
}

} // verus!
