use concentrated_pool::positions::UserState;
use concentrated_pool::types::{PositionData, PositionRange};
use concentrated_pool::u256::U256;
use concentrated_pool::weighting::{saturating_sum, update_weighted_liquidity, weighting_entries};

fn range(tick_lower: i32, tick_upper: i32) -> PositionRange {
    PositionRange { tick_lower, tick_upper }
}

fn position(liquidity: u128) -> PositionData {
    PositionData {
        fee_growth_inside_0_last_x128: U256::zero(),
        fee_growth_inside_1_last_x128: U256::zero(),
        liquidity,
        tokens_owed_0: 0,
        tokens_owed_1: 0,
    }
}

fn user(ranges: Vec<PositionRange>) -> UserState {
    UserState { positions: ranges, raw_liquidity: 0, weighted_liquidity: 0 }
}

#[test]
fn weighting_uses_stored_liquidity_and_skips_empty_ranges() {
    let u = user(vec![range(-10, 10), range(-20, 20), range(0, 30)]);
    let stored = vec![Some(position(100)), None, Some(position(0))];
    assert_eq!(weighting_entries(&u, &stored, 0, 0, 0), vec![(range(-10, 10), 100)]);
}

#[test]
fn weighting_target_overrides_its_range() {
    let u = user(vec![range(-10, 10), range(-20, 20)]);
    let stored = vec![Some(position(100)), Some(position(50))];
    assert_eq!(
        weighting_entries(&u, &stored, -20, 20, 75),
        vec![(range(-10, 10), 100), (range(-20, 20), 75)]
    );
    // Withdrawing a whole range drops it.
    assert_eq!(weighting_entries(&u, &stored, -10, 10, 0), vec![(range(-20, 20), 50)]);
}

#[test]
fn weighting_adds_a_new_target_range_last() {
    let u = user(vec![range(-10, 10)]);
    let stored = vec![Some(position(100))];
    assert_eq!(
        weighting_entries(&u, &stored, 5, 15, 30),
        vec![(range(-10, 10), 100), (range(5, 15), 30)]
    );
}

#[test]
fn saturating_sum_of_weights() {
    assert_eq!(saturating_sum(&vec![]), 0);
    assert_eq!(saturating_sum(&vec![1, 2, 3]), 6);
    assert_eq!(saturating_sum(&vec![u128::MAX, 1]), u128::MAX);
}

#[test]
fn pool_total_follows_the_users_weighted_liquidity() {
    let mut u = user(vec![]);
    u.weighted_liquidity = 40;
    assert_eq!(update_weighted_liquidity(&mut u, 100, 70), 130);
    assert_eq!(u.weighted_liquidity, 70);
    assert_eq!(update_weighted_liquidity(&mut u, 130, 10), 70);
    // A total below the user's previous share saturates at zero.
    assert_eq!(update_weighted_liquidity(&mut u, 5, 0), 0);
}
