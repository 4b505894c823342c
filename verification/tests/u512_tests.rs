use concentrated_pool::u256::U256;
use concentrated_pool::u512::{mul_div_ceil, mul_div_floor};

/// 2^n for n < 256.
fn pow2(n: u32) -> U256 {
    if n < 128 {
        U256::from_words(0, 1u128 << n)
    } else {
        U256::from_words(1u128 << (n - 128), 0)
    }
}

#[test]
fn u512_small_exact() {
    let a = U256::from_u128(1_000_000);
    let b = U256::from_u128(2_000_000);
    let d = U256::from_u128(500_000);
    assert_eq!(mul_div_floor(&a, &b, &d), Some(U256::from_u128(4_000_000)));
}

#[test]
fn u512_identity() {
    let a = U256::from_u128(u128::MAX);
    let b = U256::from_u128(u128::MAX);
    let d = U256::from_u128(u128::MAX);
    assert_eq!(mul_div_floor(&a, &b, &d), Some(U256::from_u128(u128::MAX)));
}

#[test]
fn u512_overflow_case() {
    // 2^200 * 2^200 / 2^200 = 2^200
    let a = pow2(200);
    let b = pow2(200);
    let d = pow2(200);
    assert_eq!(mul_div_floor(&a, &b, &d), Some(a));
}

#[test]
fn u512_rounding_down() {
    // 10 * 3 / 7 = 4.285... -> 4
    let a = U256::from_u128(10);
    let b = U256::from_u128(3);
    let d = U256::from_u128(7);
    assert_eq!(mul_div_floor(&a, &b, &d), Some(U256::from_u128(4)));
}

#[test]
fn u512_rounding_up() {
    // 10 * 3 / 7 = 4.285... -> 5
    let a = U256::from_u128(10);
    let b = U256::from_u128(3);
    let d = U256::from_u128(7);
    assert_eq!(mul_div_ceil(&a, &b, &d), Some(U256::from_u128(5)));
}

#[test]
fn u512_large_realistic() {
    // u128::MAX * 2^160 / 2^96 = u128::MAX * 2^64, through a 288-bit product.
    let liq = U256::from_u128(u128::MAX);
    let sqrt = pow2(160);
    let q96 = pow2(96);
    let result = mul_div_floor(&liq, &sqrt, &q96);
    let expected = U256::from_u128(u128::MAX).mul(&pow2(64));
    assert_eq!(result, Some(expected));
}

#[test]
fn u512_no_overflow_fast_path() {
    let a = U256::from_u128(123456789);
    let b = U256::from_u128(987654321);
    let d = U256::from_u128(111111111);
    assert_eq!(mul_div_floor(&a, &b, &d), Some(U256::from_u128(1097393681)));
}

#[test]
fn u512_lo_accumulation_overflow() {
    // a = 2^129 - 1; a * a / a = a.
    let one = U256::from_u32(1);
    let a = pow2(129).sub(&one);
    let result = mul_div_floor(&a, &a, &a);
    assert_eq!(result, Some(a));
}

#[test]
fn u512_full_range_deposit_realistic() {
    // numerator1 = u128::MAX * Q96 (about 2^224), times and over 2^160.
    let q96 = pow2(96);
    let numerator1 = U256::from_u128(u128::MAX).mul(&q96);
    let sqrt_price = pow2(160);
    let result = mul_div_floor(&numerator1, &sqrt_price, &sqrt_price);
    assert_eq!(result, Some(numerator1));
}

#[test]
fn u512_divisor_one() {
    let a = U256::from_u128(12345);
    let b = U256::from_u128(67890);
    let d = U256::from_u32(1);
    assert_eq!(mul_div_floor(&a, &b, &d), Some(U256::from_u128(12345 * 67890)));
}

#[test]
fn u512_large_divisor() {
    // 2^128 * 2^128 / 2^200 = 2^56
    let a = pow2(128);
    let b = pow2(128);
    let d = pow2(200);
    assert_eq!(mul_div_floor(&a, &b, &d), Some(pow2(56)));
}

#[test]
fn u512_large_divisor_ceil() {
    // (2^128 + 1) * 2^128 / 2^200: floor 2^56, ceil 2^56 + 1
    let a = pow2(128).add(&U256::from_u32(1));
    let b = pow2(128);
    let d = pow2(200);
    assert_eq!(mul_div_floor(&a, &b, &d), Some(pow2(56)));
    assert_eq!(mul_div_ceil(&a, &b, &d), Some(pow2(56).add(&U256::from_u32(1))));
}

#[test]
fn u512_very_large_divisor() {
    // 2^128 * 2^128 / 2^250 = 64
    let a = pow2(128);
    let b = pow2(128);
    let d = pow2(250);
    assert_eq!(mul_div_floor(&a, &b, &d), Some(U256::from_u32(64)));
}

#[test]
fn u512_very_large_divisor_ceil() {
    // (2^128 + 1) * 2^128 / 2^250: floor 64, ceil 65
    let a = pow2(128).add(&U256::from_u32(1));
    let b = pow2(128);
    let d = pow2(250);
    assert_eq!(mul_div_floor(&a, &b, &d), Some(U256::from_u32(64)));
    assert_eq!(mul_div_ceil(&a, &b, &d), Some(U256::from_u32(65)));
}

#[test]
fn u512_max_divisor() {
    let max = U256::max_value();
    assert_eq!(mul_div_floor(&max, &max, &max), Some(max));
}

#[test]
fn u512_result_too_large_is_none() {
    // 2^255 * 4 / 1 needs 257 bits.
    let a = pow2(255);
    let b = U256::from_u32(4);
    assert_eq!(mul_div_floor(&a, &b, &U256::one()), None);
}

#[test]
fn u512_zero_divisor_is_none() {
    let a = U256::from_u32(3);
    assert_eq!(mul_div_floor(&a, &a, &U256::zero()), None);
}

#[test]
fn u512_zero_divisor_is_none_even_for_a_zero_product() {
    let a = U256::from_u32(3);
    assert_eq!(mul_div_floor(&U256::zero(), &a, &U256::zero()), None);
    assert_eq!(mul_div_ceil(&a, &U256::zero(), &U256::zero()), None);
}
