use concentrated_pool::constants::{MAX_TICK, MIN_TICK};
use concentrated_pool::math::{
    max_sqrt_ratio, min_sqrt_ratio, try_amount0_delta, try_amount1_delta, wrapping_add_u256,
    wrapping_sub_u256,
};
use concentrated_pool::tick_math::{sqrt_ratio_at_tick, tick_at_sqrt_ratio, tick_candidates_from_log2};
use concentrated_pool::u256::{widening_mul, U256};

fn sqrt_at(tick: i32) -> U256 {
    sqrt_ratio_at_tick(tick).unwrap()
}

fn tick_of(p: &U256) -> i32 {
    tick_at_sqrt_ratio(p).unwrap()
}

#[test]
fn tick_math_roundtrip() {
    for tick in [-887_272, -100_000, -1, 0, 1, 100_000, 887_271] {
        let sqrt = sqrt_at(tick);
        let actual_tick = tick_of(&sqrt);
        assert_eq!(actual_tick, tick);
    }
}

#[test]
fn tick_at_sqrt_ratio_v3_parity() {
    for tick in [
        MIN_TICK,
        MIN_TICK + 1,
        -100_000,
        -1,
        0,
        1,
        100_000,
        MAX_TICK - 2,
        MAX_TICK - 1,
    ] {
        let sqrt = sqrt_at(tick);
        assert_eq!(tick_of(&sqrt), tick);

        if tick < MAX_TICK {
            let next = sqrt_at(tick + 1);
            let just_below_next = next.sub(&U256::from_u32(1));
            assert_eq!(tick_of(&just_below_next), tick);
        }
    }
}

#[test]
fn widening_mul_basic() {
    assert_eq!(widening_mul(1, 1), (0, 1));

    let max64 = u64::MAX as u128;
    assert_eq!(widening_mul(max64, max64), (0, max64 * max64));

    assert_eq!(widening_mul(1u128 << 127, 2), (1, 0));
    assert_eq!(widening_mul(u128::MAX, 2), (1, u128::MAX - 1));
    assert_eq!(widening_mul(u128::MAX, u128::MAX), (u128::MAX - 1, 1));
}

#[test]
fn tick_at_sqrt_ratio_boundaries() {
    let min = min_sqrt_ratio();
    let max = max_sqrt_ratio();
    let max_minus_one = max.sub(&U256::from_u32(1));

    assert_eq!(tick_of(&min), MIN_TICK);
    assert_eq!(tick_of(&max_minus_one), MAX_TICK - 1);

    for tick in [-500_000, -50_000, 50_000, 500_000] {
        let lower = sqrt_at(tick);
        let upper = sqrt_at(tick + 1);
        let mid = lower.add(&upper).div(&U256::from_u32(2));
        assert_eq!(tick_of(&mid), tick);
    }
}

#[test]
fn min_max_bounds_are_valid() {
    assert!(min_sqrt_ratio().lt(&max_sqrt_ratio()));
}

#[test]
fn wrapping_sub_no_underflow() {
    let a = U256::from_u128(100);
    let b = U256::from_u128(30);
    assert_eq!(wrapping_sub_u256(&a, &b), U256::from_u128(70));
}

#[test]
fn wrapping_sub_equal() {
    let a = U256::from_u128(42);
    assert_eq!(wrapping_sub_u256(&a, &a), U256::from_u32(0));
}

#[test]
fn wrapping_sub_with_underflow() {
    let a = U256::from_u128(10);
    let b = U256::from_u128(30);
    let expected = U256::max_value().sub(&U256::from_u128(19));
    assert_eq!(wrapping_sub_u256(&a, &b), expected);
}

#[test]
fn wrapping_sub_double_wrap_identity() {
    let a = U256::from_u128(50);
    let b = U256::from_u128(200);
    let diff1 = wrapping_sub_u256(&a, &b);
    let diff2 = wrapping_sub_u256(&b, &a);
    assert_eq!(diff2, U256::from_u128(150));
    let expected_diff1 = wrapping_sub_u256(&U256::from_u32(0), &U256::from_u128(150));
    assert_eq!(diff1, expected_diff1);
}

#[test]
fn wrapping_sub_zero_minus_one() {
    let zero = U256::from_u32(0);
    let one = U256::one();
    assert_eq!(wrapping_sub_u256(&zero, &one), U256::max_value());
}

#[test]
fn wrapping_sub_max_values() {
    let max = U256::max_value();
    let zero = U256::from_u32(0);
    assert_eq!(wrapping_sub_u256(&max, &zero), max);
    assert_eq!(wrapping_sub_u256(&max, &max), zero);
    assert_eq!(wrapping_sub_u256(&zero, &max), U256::from_u32(1));
}

#[test]
fn wrapping_add_no_overflow() {
    let a = U256::from_u128(100);
    let b = U256::from_u128(200);
    assert_eq!(wrapping_add_u256(&a, &b), U256::from_u128(300));
}

#[test]
fn wrapping_add_zero() {
    let a = U256::from_u128(42);
    let zero = U256::from_u32(0);
    assert_eq!(wrapping_add_u256(&a, &zero), a);
    assert_eq!(wrapping_add_u256(&zero, &a), a);
}

#[test]
fn wrapping_add_overflow() {
    let max = U256::max_value();
    let one = U256::one();
    assert_eq!(wrapping_add_u256(&max, &one), U256::from_u32(0));
}

#[test]
fn wrapping_add_overflow_both_large() {
    let max = U256::max_value();
    let expected = max.sub(&U256::one());
    assert_eq!(wrapping_add_u256(&max, &max), expected);
}

#[test]
fn wrapping_add_sub_roundtrip() {
    let a = U256::from_u128(12345);
    let b = U256::from_u128(67890);
    let sum = wrapping_add_u256(&a, &b);
    assert_eq!(wrapping_sub_u256(&sum, &b), a);
}

#[test]
fn wrapping_add_sub_roundtrip_overflow() {
    let max = U256::max_value();
    let val = U256::from_u128(100);
    let sum = wrapping_add_u256(&max, &val);
    assert_eq!(wrapping_sub_u256(&sum, &val), max);
}

#[test]
fn try_amount0_delta_returns_none_on_overflow() {
    // L = 1e30 across nearly the entire tick range: the result is far above u128::MAX.
    let sqrt_min = sqrt_at(MIN_TICK);
    let sqrt_max = sqrt_at(MAX_TICK - 1);
    let liquidity = 1_000_000_000_000_000_000_000_000_000_000u128;
    assert_eq!(try_amount0_delta(&sqrt_min, &sqrt_max, liquidity, true), None);
}

#[test]
fn try_amount1_delta_returns_none_on_overflow() {
    let sqrt_min = sqrt_at(MIN_TICK);
    let sqrt_max = sqrt_at(MAX_TICK - 1);
    let liquidity = 1_000_000_000_000_000_000_000_000_000_000u128;
    assert_eq!(try_amount1_delta(&sqrt_min, &sqrt_max, liquidity, true), None);
}

#[test]
fn try_amount0_delta_zero_liquidity_returns_some_zero() {
    let sqrt_a = sqrt_at(-1000);
    let sqrt_b = sqrt_at(1000);
    assert_eq!(try_amount0_delta(&sqrt_a, &sqrt_b, 0, true), Some(0));
}

#[test]
fn try_amount0_delta_equal_prices_returns_some_zero() {
    let sqrt_a = sqrt_at(0);
    assert_eq!(try_amount0_delta(&sqrt_a, &sqrt_a, 1_000_000, true), Some(0));
}

#[test]
fn sqrt_ratio_at_tick_known_values() {
    // 2^96 at tick zero, and the documented extremes.
    assert_eq!(sqrt_at(0), U256::from_words(0, 1u128 << 96));
    assert_eq!(sqrt_at(MIN_TICK), min_sqrt_ratio());
    assert_eq!(sqrt_ratio_at_tick(MIN_TICK - 1), Err(concentrated_pool::errors::ConcentratedPoolError::TickOutOfBounds));
    assert_eq!(sqrt_ratio_at_tick(MAX_TICK + 1), Err(concentrated_pool::errors::ConcentratedPoolError::TickOutOfBounds));
}

#[test]
fn tick_at_sqrt_ratio_rejects_out_of_range() {
    let below = min_sqrt_ratio().sub(&U256::one());
    assert_eq!(
        tick_at_sqrt_ratio(&below),
        Err(concentrated_pool::errors::ConcentratedPoolError::PriceOutOfBounds)
    );
    assert_eq!(
        tick_at_sqrt_ratio(&max_sqrt_ratio()),
        Err(concentrated_pool::errors::ConcentratedPoolError::PriceOutOfBounds)
    );
}

#[test]
fn log2_candidates_hold_the_tick() {
    let mut t: i32 = MIN_TICK;
    while t < MAX_TICK {
        for p in [sqrt_ratio_at_tick(t).unwrap(), sqrt_ratio_at_tick(t + 1).unwrap().sub(&U256::one())] {
            let (low, high) = tick_candidates_from_log2(&p).unwrap();
            assert!(low == t || high == t, "tick {} candidates {} {}", t, low, high);
            assert_eq!(tick_at_sqrt_ratio(&p), Ok(t));
        }
        t += 997;
    }
    for t in [MIN_TICK, -1, 0, 1, MAX_TICK - 1] {
        let p = sqrt_ratio_at_tick(t).unwrap();
        let (low, high) = tick_candidates_from_log2(&p).unwrap();
        assert!(low == t || high == t);
    }
}
