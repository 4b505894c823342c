//! Multiply-then-divide with a 512-bit intermediate product.

use vstd::prelude::*;

verus! {

use crate::u256::{U256, b256, b128, full_mul, div_wide, lemma_u256_bound};

/// floor(a * b / d) as a mathematical integer.
pub open spec fn spec_mul_div_floor(a: nat, b: nat, d: nat) -> nat
    recommends
        d > 0,
{
    (a * b) / d
}

/// ceil(a * b / d) as a mathematical integer.
pub open spec fn spec_mul_div_ceil(a: nat, b: nat, d: nat) -> nat
    recommends
        d > 0,
{
    if (a * b) % d == 0 {
        (a * b) / d
    } else {
        (a * b) / d + 1
    }
}

/// The rounded quotient that `mul_div_internal` computes, when it exists.
pub open spec fn spec_mul_div(a: nat, b: nat, d: nat, round_up: bool) -> Option<nat> {
    if d == 0 {
        None
    } else if a * b == 0 {
        Some(0nat)
    } else {
        let v = if round_up { spec_mul_div_ceil(a, b, d) } else { spec_mul_div_floor(a, b, d) };
        if v < b256() {
            Some(v)
        } else {
            None
        }
    }
}

/// Rounded `a * b / d` computed through the full 512-bit product.
/// `None` when `d` is zero or when the result needs more than 256 bits.
pub fn mul_div_internal(a: &U256, b: &U256, d: &U256, round_up: bool) -> (r: Option<U256>)
    ensures
        r matches Some(v) ==> spec_mul_div(a@, b@, d@, round_up) == Some(v@),
        r is None ==> spec_mul_div(a@, b@, d@, round_up) is None,
{
    if d.is_zero() {
        return None;
    }
    if a.is_zero() || b.is_zero() {
        proof {
            assert(a@ * b@ == 0) by (nonlinear_arith) requires a@ == 0 || b@ == 0;
        }
        return Some(U256::zero());
    }
    proof {
        assert(a@ * b@ > 0) by (nonlinear_arith) requires a@ > 0, b@ > 0;
    }
    let (hi, lo) = full_mul(a, b);
    let prod = Ghost(a@ * b@);
    if hi.ge(d) {
        // the quotient is at least 2^256
        proof {
            lemma_u256_bound(lo);
            assert(prod@ / d@ >= b256()) by (nonlinear_arith)
                requires
                    hi@ * b256() + lo@ == prod@,
                    hi@ >= d@,
                    d@ > 0,
            {
                assert(prod@ >= d@ * b256()) by (nonlinear_arith)
                    requires hi@ * b256() + lo@ == prod@, hi@ >= d@, lo@ >= 0;
                vstd::arithmetic::div_mod::lemma_div_is_ordered(
                    (d@ * b256()) as int, prod@ as int, d@ as int,
                );
                vstd::arithmetic::div_mod::lemma_div_multiples_vanish(b256() as int, d@ as int);
            }
        }
        return None;
    }
    let (q, rem) = div_wide(&hi, &lo, d);
    proof {
        vstd::arithmetic::div_mod::lemma_fundamental_div_mod_converse(
            prod@ as int, d@ as int, q@ as int, rem@ as int,
        );
        lemma_u256_bound(q);
    }
    if round_up && !rem.is_zero() {
        if q.hi == u128::MAX && q.lo == u128::MAX {
            proof {
                assert(q@ == b256() - 1);
            }
            None
        } else {
            proof {
                crate::u256::lemma_u256_view_injective(q, U256 { hi: u128::MAX, lo: u128::MAX });
            }
            Some(q.add(&U256::one()))
        }
    } else {
        Some(q)
    }
}

/// floor(a * b / d); `None` when `d` is zero or the result overflows.
pub fn mul_div_floor(a: &U256, b: &U256, d: &U256) -> (r: Option<U256>)
    ensures
        r matches Some(v) ==> spec_mul_div(a@, b@, d@, false) == Some(v@),
        r is None ==> spec_mul_div(a@, b@, d@, false) is None,
{
    mul_div_internal(a, b, d, false)
}

/// ceil(a * b / d); `None` when `d` is zero or the result overflows.
pub fn mul_div_ceil(a: &U256, b: &U256, d: &U256) -> (r: Option<U256>)
    ensures
        r matches Some(v) ==> spec_mul_div(a@, b@, d@, true) == Some(v@),
        r is None ==> spec_mul_div(a@, b@, d@, true) is None,
{
    mul_div_internal(a, b, d, true)
}

} // verus!
