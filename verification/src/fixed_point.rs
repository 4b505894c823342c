//! Fixed-point multiply-divide on `u128` through `soroban_fixed_point_math`.

use vstd::prelude::*;

verus! {

/// floor(x * y / z) when the product fits in `u128` and `z` is not zero.
pub open spec fn spec_u128_mul_div_floor(x: u128, y: u128, z: u128) -> Option<u128> {
    if z != 0 && x * y <= u128::MAX {
        Some(((x * y) / (z as int)) as u128)
    } else {
        None
    }
}

/// ceil(x * y / z) when the product fits in `u128` and `z` is not zero.
pub open spec fn spec_u128_mul_div_ceil(x: u128, y: u128, z: u128) -> Option<u128> {
    if z != 0 && x * y <= u128::MAX {
        if (x * y) % (z as int) == 0 {
            Some(((x * y) / (z as int)) as u128)
        } else {
            Some(((x * y) / (z as int) + 1) as u128)
        }
    } else {
        None
    }
}

/// Calls `<u128 as soroban_fixed_point_math::FixedPoint>::fixed_mul_floor`, which multiplies
/// with `checked_mul` and divides with `checked_div`: it gives floor(x * y / z), and `None`
/// when the product overflows `u128` or `z` is zero.
#[verifier::external_body]
pub(crate) fn fixed_mul_floor_u128(x: u128, y: u128, z: u128) -> (r: Option<u128>)
    ensures
        r == spec_u128_mul_div_floor(x, y, z),
{
    soroban_fixed_point_math::FixedPoint::fixed_mul_floor(x, y, z)
}

/// Calls `<u128 as soroban_fixed_point_math::FixedPoint>::fixed_mul_ceil`, which multiplies
/// with `checked_mul`, then divides and adds one when the remainder is not zero: it gives
/// ceil(x * y / z), and `None` when the product overflows `u128` or `z` is zero.
#[verifier::external_body]
pub(crate) fn fixed_mul_ceil_u128(x: u128, y: u128, z: u128) -> (r: Option<u128>)
    ensures
        r == spec_u128_mul_div_ceil(x, y, z),
{
    soroban_fixed_point_math::FixedPoint::fixed_mul_ceil(x, y, z)
}

} // verus!
