use std::collections::HashMap;

use concentrated_pool::errors::{ConcentratedPoolError, ContractError, LiquidityPoolValidationError};
use concentrated_pool::math::{amount0_delta, amount1_delta, wrapping_sub_u256};
use concentrated_pool::tick_math::sqrt_ratio_at_tick;
use concentrated_pool::pool::ConcentratedLiquidityPool;
use concentrated_pool::positions::UserState;
use concentrated_pool::types::PositionRange;
use concentrated_pool::types::{PositionData, TickInfo};
use concentrated_pool::u256::U256;

/// A pool with its per-user state, positions and token balances, as a contract would store them.
struct Market {
    pool: ConcentratedLiquidityPool,
    users: HashMap<u32, UserState>,
    positions: HashMap<(u32, i32, i32), PositionData>,
    balances: HashMap<(u32, usize), i128>,
}

const USER: u32 = 1;

impl Market {
    fn new() -> Market {
        Market::with(30, 1)
    }

    fn with(fee: u32, spacing: i32) -> Market {
        Market {
            pool: ConcentratedLiquidityPool::initialize(fee, spacing).unwrap(),
            users: HashMap::new(),
            positions: HashMap::new(),
            balances: HashMap::new(),
        }
    }

    fn mint(&mut self, user: u32, amount0: i128, amount1: i128) {
        *self.balances.entry((user, 0)).or_insert(0) += amount0;
        *self.balances.entry((user, 1)).or_insert(0) += amount1;
    }

    fn balance(&self, user: u32, token: usize) -> i128 {
        *self.balances.get(&(user, token)).unwrap_or(&0)
    }

    fn pay(&mut self, user: u32, token: usize, amount: u128) {
        let b = self.balances.entry((user, token)).or_insert(0);
        *b -= amount as i128;
        assert!(*b >= 0, "insufficient balance");
    }

    fn receive(&mut self, user: u32, token: usize, amount: u128) {
        *self.balances.entry((user, token)).or_insert(0) += amount as i128;
    }

    fn user_state(&mut self, user: u32) -> &mut UserState {
        self.users.entry(user).or_insert(UserState {
            positions: Vec::new(),
            raw_liquidity: 0,
            weighted_liquidity: 0,
        })
    }

    fn deposit_position(
        &mut self,
        user: u32,
        lower: i32,
        upper: i32,
        amounts: [u128; 2],
        min_liquidity: u128,
    ) -> Result<([u128; 2], u128), ContractError> {
        let existing = self.positions.get(&(user, lower, upper)).copied();
        self.user_state(user);
        let state = self.users.get_mut(&user).unwrap();
        let (a0, a1, l, pos) = self.pool.deposit_position(
            existing,
            state,
            lower,
            upper,
            &amounts.to_vec(),
            min_liquidity,
        )?;
        self.positions.insert((user, lower, upper), pos);
        self.pay(user, 0, a0);
        self.pay(user, 1, a1);
        Ok(([a0, a1], l))
    }

    fn withdraw_position(
        &mut self,
        user: u32,
        lower: i32,
        upper: i32,
        amount: u128,
        min_amounts: [u128; 2],
    ) -> Result<(u128, u128), ContractError> {
        let existing = self.positions.get(&(user, lower, upper)).copied();
        self.user_state(user);
        let state = self.users.get_mut(&user).unwrap();
        let (t0, t1, left) = self.pool.withdraw_position(
            existing,
            state,
            lower,
            upper,
            amount,
            &min_amounts.to_vec(),
        )?;
        match left {
            Some(p) => {
                self.positions.insert((user, lower, upper), p);
            }
            None => {
                self.positions.remove(&(user, lower, upper));
            }
        }
        self.receive(user, 0, t0);
        self.receive(user, 1, t1);
        Ok((t0, t1))
    }

    fn full_range(&self) -> (i32, i32) {
        self.pool.full_range_ticks().unwrap()
    }

    fn deposit(&mut self, user: u32, amounts: [u128; 2], min_shares: u128) -> Result<([u128; 2], u128), ContractError> {
        let (lower, upper) = self.full_range();
        let existing = self.positions.get(&(user, lower, upper)).copied();
        self.user_state(user);
        let state = self.users.get_mut(&user).unwrap();
        let (a0, a1, l, pos) = self.pool.deposit(existing, state, &amounts.to_vec(), min_shares)?;
        self.positions.insert((user, lower, upper), pos);
        self.pay(user, 0, a0);
        self.pay(user, 1, a1);
        Ok(([a0, a1], l))
    }

    fn withdraw(&mut self, user: u32, shares: u128, min_amounts: [u128; 2]) -> Result<(u128, u128), ContractError> {
        let (lower, upper) = self.full_range();
        self.withdraw_position(user, lower, upper, shares, min_amounts)
    }

    fn swap(&mut self, user: u32, in_idx: u32, out_idx: u32, amount_in: u128, out_min: u128) -> Result<u128, ContractError> {
        let (out, _, _) = self.pool.swap(in_idx, out_idx, amount_in, out_min)?;
        self.pay(user, in_idx as usize, amount_in);
        self.receive(user, out_idx as usize, out);
        Ok(out)
    }

    fn swap_strict_receive(&mut self, user: u32, in_idx: u32, out_idx: u32, amount_out: u128, in_max: u128) -> Result<u128, ContractError> {
        let (amount_in, _, _) = self.pool.swap_strict_receive(in_idx, out_idx, amount_out, in_max)?;
        self.pay(user, in_idx as usize, amount_in);
        self.receive(user, out_idx as usize, amount_out);
        Ok(amount_in)
    }

    fn claim_position_fees(&mut self, user: u32, lower: i32, upper: i32) -> Result<(u128, u128), ConcentratedPoolError> {
        let existing = self.positions.get(&(user, lower, upper)).copied();
        self.user_state(user);
        let state = self.users.get_mut(&user).unwrap();
        let (c0, c1, left) = self.pool.collect_internal(existing, state, lower, upper, u128::MAX, u128::MAX)?;
        match left {
            Some(p) => {
                self.positions.insert((user, lower, upper), p);
            }
            None => {
                self.positions.remove(&(user, lower, upper));
            }
        }
        self.receive(user, 0, c0);
        self.receive(user, 1, c1);
        Ok((c0, c1))
    }

    fn stored_positions(&self, user: u32) -> (UserState, Vec<Option<PositionData>>) {
        let state = match self.users.get(&user) {
            Some(s) => UserState {
                positions: s.positions.clone(),
                raw_liquidity: s.raw_liquidity,
                weighted_liquidity: s.weighted_liquidity,
            },
            None => UserState { positions: Vec::new(), raw_liquidity: 0, weighted_liquidity: 0 },
        };
        let stored = state
            .positions
            .iter()
            .map(|r: &PositionRange| self.positions.get(&(user, r.tick_lower, r.tick_upper)).copied())
            .collect();
        (state, stored)
    }

    fn get_all_position_fees(&self, user: u32) -> (u128, u128) {
        let (state, stored) = self.stored_positions(user);
        self.pool.get_all_position_fees(&state, &stored)
    }

    fn claim_all_position_fees(&mut self, user: u32) -> Result<(u128, u128), ContractError> {
        let (_, stored) = self.stored_positions(user);
        self.user_state(user);
        let state = self.users.get_mut(&user).unwrap();
        let ranges = state.positions.clone();
        let (c0, c1, left) = self.pool.claim_all_position_fees(state, &stored)?;
        for (r, p) in ranges.iter().zip(left.into_iter()) {
            match p {
                Some(q) => {
                    self.positions.insert((user, r.tick_lower, r.tick_upper), q);
                }
                None => {
                    self.positions.remove(&(user, r.tick_lower, r.tick_upper));
                }
            }
        }
        self.receive(user, 0, c0);
        self.receive(user, 1, c1);
        Ok((c0, c1))
    }

    fn get_position_fees(&self, user: u32, lower: i32, upper: i32) -> (u128, u128) {
        let existing = self.positions.get(&(user, lower, upper)).copied();
        self.pool.get_position_fees(existing, lower, upper).unwrap()
    }

    fn estimate_withdraw_position(&self, user: u32, lower: i32, upper: i32, amount: u128) -> (u128, u128) {
        let existing = self.positions.get(&(user, lower, upper)).copied();
        self.pool.estimate_withdraw_position(existing, lower, upper, amount).unwrap()
    }

    fn get_position(&self, user: u32, lower: i32, upper: i32) -> Option<PositionData> {
        self.positions.get(&(user, lower, upper)).copied()
    }

    fn get_tick(&self, tick: i32) -> TickInfo {
        self.pool.ticks.get_tick(tick, self.pool.tick_spacing)
    }

    fn pool_balance(&self, token: usize) -> u128 {
        if token == 0 {
            self.pool.reserve0 + self.pool.protocol_fees.token0
        } else {
            self.pool.reserve1 + self.pool.protocol_fees.token1
        }
    }

    fn chunk_bitmap_is_zero(&self, word: i32) -> bool {
        self.pool.ticks.chunk_word(word) == [0u8; 32]
    }
}

fn pool_err(e: ConcentratedPoolError) -> ContractError {
    ContractError::Pool(e)
}

fn validation_err(e: LiquidityPoolValidationError) -> ContractError {
    ContractError::Validation(e)
}

#[test]
fn test_swap_empty_pool() {
    let mut m = Market::new();
    m.mint(USER, 10_0000000, 0);

    // An empty pool rejects swaps.
    assert!(m.pool.estimate_swap(0, 1, 10_0000000).is_err());
    assert!(m.swap(USER, 0, 1, 10_0000000, 0).is_err());

    assert_eq!(m.balance(USER, 0), 10_0000000);
    assert_eq!(m.balance(USER, 1), 0);
}

#[test]
fn test_auto_price_on_empty_pool() {
    let mut m = Market::new();
    m.mint(USER, 1_000_0000000, 2_000_0000000);

    // A 1:2 ratio sets the price to 2.0, tick 6931.
    let (actual, liq) = m
        .deposit_position(USER, 5931, 7931, [1_000_0000000, 2_000_0000000], 0)
        .unwrap();
    assert!(liq > 0);
    assert_eq!(m.pool.slot0.tick, 6931);
    assert_eq!(actual, [998_4051017, 2000_0000000]);
}

#[test]
fn test_router_happy_flow() {
    let mut m = Market::new();
    m.mint(USER, 1_000_0000000, 1_000_0000000);
    let initial_user_0 = m.balance(USER, 0) as u128;
    let initial_user_1 = m.balance(USER, 1) as u128;

    let desired = [100_0000000u128, 100_0000000u128];
    let estimated_shares = m.pool.estimate_deposit(&desired.to_vec()).unwrap();
    let (amounts, minted_shares) = m.deposit(USER, desired, 0).unwrap();
    assert_eq!(minted_shares, estimated_shares);
    assert_eq!(m.pool.total_raw_liquidity, minted_shares);
    assert_eq!(m.users[&USER].raw_liquidity, minted_shares);

    let spent0 = amounts[0];
    let spent1 = amounts[1];
    assert_eq!(m.balance(USER, 0) as u128, initial_user_0 - spent0);
    assert_eq!(m.balance(USER, 1) as u128, initial_user_1 - spent1);

    let amount_in = 10_0000000u128;
    let estimated_out = m.pool.estimate_swap(0, 1, amount_in).unwrap();
    let out = m.swap(USER, 0, 1, amount_in, 0).unwrap();
    assert_eq!(out, estimated_out);
    assert_eq!(m.balance(USER, 0) as u128, initial_user_0 - spent0 - amount_in);
    assert_eq!(m.balance(USER, 1) as u128, initial_user_1 - spent1 + out);

    let withdrawn = m.withdraw(USER, minted_shares, [0, 0]).unwrap();
    assert_eq!(m.pool.total_raw_liquidity, 0);
    assert_eq!(m.users[&USER].raw_liquidity, 0);

    let (claimed0, claimed1) = m.pool.claim_protocol_fees();
    assert_eq!(m.pool.protocol_fees.token0, 0);
    assert_eq!(m.pool.protocol_fees.token1, 0);
    assert!(claimed0 > 0);
    assert_eq!(claimed1, 0);

    assert_eq!(
        m.balance(USER, 0) as u128,
        initial_user_0 - spent0 - amount_in + withdrawn.0
    );
    assert_eq!(
        m.balance(USER, 1) as u128,
        initial_user_1 - spent1 + out + withdrawn.1
    );
}

#[test]
fn test_strict_receive_matches_estimate() {
    let mut m = Market::new();
    m.mint(USER, 1_000_0000000, 1_000_0000000);
    let (deposited, _) = m.deposit(USER, [200_0000000, 200_0000000], 0).unwrap();
    let initial_user_0 = m.balance(USER, 0) as u128;
    let initial_user_1 = m.balance(USER, 1) as u128;

    let out_amount = 1_0000000u128;
    let quoted_in = m.pool.estimate_swap_strict_receive(0, 1, out_amount).unwrap();
    let amount_in = m.swap_strict_receive(USER, 0, 1, out_amount, quoted_in).unwrap();
    assert_eq!(amount_in, quoted_in);

    assert_eq!(m.balance(USER, 0) as u128, initial_user_0 - amount_in);
    assert_eq!(m.balance(USER, 1) as u128, initial_user_1 + out_amount);
    // The pool's token holdings are its reserves plus the protocol's share of the fees.
    assert_eq!(m.pool_balance(0), deposited[0] + amount_in);
    assert_eq!(m.pool_balance(1), deposited[1] - out_amount);
}

#[test]
fn test_public_deposit_position_updates_position_tick_and_bitmap() {
    let mut m = Market::new();
    m.mint(USER, 100_0000000, 100_0000000);

    let (_, liquidity) = m
        .deposit_position(USER, -10, 10, [100_0000000, 100_0000000], 0)
        .unwrap();
    assert!(liquidity > 0);

    let position = m.get_position(USER, -10, 10).unwrap();
    assert_eq!(position.liquidity, liquidity);
    assert_eq!(position.tokens_owed_0, 0);
    assert_eq!(position.tokens_owed_1, 0);

    let lower = m.get_tick(-10);
    assert_eq!(lower.liquidity_gross, liquidity);
    assert_eq!(lower.liquidity_net, liquidity as i128);

    let upper = m.get_tick(10);
    assert_eq!(upper.liquidity_gross, liquidity);
    assert_eq!(upper.liquidity_net, -(liquidity as i128));

    assert!(!m.chunk_bitmap_is_zero(-1));
    assert!(!m.chunk_bitmap_is_zero(0));
}

#[test]
fn test_deposit_killed() {
    let mut m = Market::new();
    m.mint(USER, 100_0000000, 100_0000000);
    m.pool.is_killed_deposit = true;
    let r = m.deposit(USER, [10_0000000, 10_0000000], 0);
    assert_eq!(r, Err(pool_err(ConcentratedPoolError::DepositKilled)));
    assert_eq!(ConcentratedPoolError::DepositKilled.code(), 205);
}

#[test]
fn test_deposit_position_tick_lower_gte_upper() {
    let mut m = Market::new();
    m.mint(USER, 100_0000000, 100_0000000);
    let r = m.deposit_position(USER, 10, 10, [10_0000000, 10_0000000], 0);
    assert_eq!(r, Err(pool_err(ConcentratedPoolError::TickLowerNotLessThanUpper)));
    assert_eq!(ConcentratedPoolError::TickLowerNotLessThanUpper.code(), 2110);
}

#[test]
fn test_deposit_position_tick_lower_too_low() {
    let mut m = Market::new();
    m.mint(USER, 100_0000000, 100_0000000);
    let r = m.deposit_position(USER, -887_273, 0, [10_0000000, 10_0000000], 0);
    assert_eq!(r, Err(pool_err(ConcentratedPoolError::TickLowerTooLow)));
    assert_eq!(ConcentratedPoolError::TickLowerTooLow.code(), 2111);
}

#[test]
fn test_deposit_position_tick_upper_too_high() {
    let mut m = Market::new();
    m.mint(USER, 100_0000000, 100_0000000);
    let r = m.deposit_position(USER, 0, 887_273, [10_0000000, 10_0000000], 0);
    assert_eq!(r, Err(pool_err(ConcentratedPoolError::TickUpperTooHigh)));
    assert_eq!(ConcentratedPoolError::TickUpperTooHigh.code(), 2112);
}

#[test]
fn test_deposit_position_zero_amount() {
    let mut m = Market::new();
    m.mint(USER, 100_0000000, 100_0000000);
    let r = m.deposit_position(USER, -10, 10, [0, 0], 0);
    assert_eq!(r, Err(validation_err(LiquidityPoolValidationError::ZeroAmount)));
}

#[test]
fn test_withdraw_position_not_found() {
    let mut m = Market::new();
    let r = m.withdraw_position(USER, -10, 10, 1_000_000, [0, 0]);
    assert_eq!(r, Err(pool_err(ConcentratedPoolError::PositionNotFound)));
    assert_eq!(ConcentratedPoolError::PositionNotFound.code(), 2118);
}

#[test]
fn test_withdraw_position_insufficient_liquidity() {
    let mut m = Market::new();
    m.mint(USER, 100_0000000, 100_0000000);
    let (_, liquidity) = m
        .deposit_position(USER, -10, 10, [10_0000000, 10_0000000], 0)
        .unwrap();
    let r = m.withdraw_position(USER, -10, 10, liquidity + 1, [0, 0]);
    assert_eq!(r, Err(pool_err(ConcentratedPoolError::InsufficientLiquidity)));
    assert_eq!(ConcentratedPoolError::InsufficientLiquidity.code(), 2121);
}

#[test]
fn test_withdraw_position_zero_amount() {
    let mut m = Market::new();
    m.mint(USER, 100_0000000, 100_0000000);
    m.deposit_position(USER, -10, 10, [10_0000000, 10_0000000], 0)
        .unwrap();
    let r = m.withdraw_position(USER, -10, 10, 0, [0, 0]);
    assert_eq!(r, Err(validation_err(LiquidityPoolValidationError::ZeroAmount)));
}

#[test]
fn test_max_user_positions_exceeded() {
    let mut m = Market::new();
    m.mint(USER, 1_000_0000000, 1_000_0000000);
    // MAX_USER_POSITIONS = 20: twenty ranges, then a twenty-first fails.
    for i in 0..20i32 {
        let lower = -((i + 1) * 2);
        let upper = (i + 1) * 2;
        m.deposit_position(USER, lower, upper, [1_0000000, 1_0000000], 0)
            .unwrap();
    }
    let r = m.deposit_position(USER, -100, 100, [1_0000000, 1_0000000], 0);
    assert_eq!(r, Err(pool_err(ConcentratedPoolError::TooManyPositions)));
    assert_eq!(ConcentratedPoolError::TooManyPositions.code(), 2119);
}

#[test]
fn test_swap_killed() {
    let mut m = Market::new();
    m.mint(USER, 100_0000000, 100_0000000);
    m.deposit(USER, [50_0000000, 50_0000000], 0).unwrap();
    m.pool.is_killed_swap = true;
    let r = m.swap(USER, 0, 1, 1_0000000, 0);
    assert_eq!(r, Err(pool_err(ConcentratedPoolError::SwapKilled)));
    assert_eq!(ConcentratedPoolError::SwapKilled.code(), 206);
}

#[test]
fn test_deposit_position_below_price_token0_only() {
    let mut m = Market::new();
    m.mint(USER, 200_0000000, 200_0000000);
    m.deposit_position(USER, -100, 100, [50_0000000, 50_0000000], 0)
        .unwrap();
    let initial_0 = m.balance(USER, 0);
    let initial_1 = m.balance(USER, 1);

    // [10, 20] lies above tick 0: only token0.
    m.deposit_position(USER, 10, 20, [100_0000000, 100_0000000], 0)
        .unwrap();
    assert!(m.balance(USER, 0) < initial_0);
    assert_eq!(m.balance(USER, 1), initial_1);
}

#[test]
fn test_deposit_position_above_price_token1_only() {
    let mut m = Market::new();
    m.mint(USER, 200_0000000, 200_0000000);
    m.deposit_position(USER, -100, 100, [50_0000000, 50_0000000], 0)
        .unwrap();
    let initial_0 = m.balance(USER, 0);
    let initial_1 = m.balance(USER, 1);

    // [-20, -10] lies below tick 0: only token1.
    m.deposit_position(USER, -20, -10, [100_0000000, 100_0000000], 0)
        .unwrap();
    assert_eq!(m.balance(USER, 0), initial_0);
    assert!(m.balance(USER, 1) < initial_1);
}

#[test]
fn test_add_liquidity_to_existing_position() {
    let mut m = Market::new();
    m.mint(USER, 200_0000000, 200_0000000);
    let (_, liq1) = m
        .deposit_position(USER, -10, 10, [50_0000000, 50_0000000], 0)
        .unwrap();
    assert_eq!(m.get_position(USER, -10, 10).unwrap().liquidity, liq1);

    let (_, liq2) = m
        .deposit_position(USER, -10, 10, [100_0000000, 100_0000000], 0)
        .unwrap();
    assert_eq!(m.get_position(USER, -10, 10).unwrap().liquidity, liq1 + liq2);

    let total_liq = liq1 + liq2;
    let lower = m.get_tick(-10);
    assert_eq!(lower.liquidity_gross, total_liq);
    assert_eq!(lower.liquidity_net, total_liq as i128);
}

#[test]
fn test_partial_withdrawal_keeps_position() {
    let mut m = Market::new();
    m.mint(USER, 100_0000000, 100_0000000);
    let (_, liquidity) = m
        .deposit_position(USER, -10, 10, [50_0000000, 50_0000000], 0)
        .unwrap();
    let withdraw_amount = liquidity * 40 / 100;
    let balance0_before = m.balance(USER, 0);
    let balance1_before = m.balance(USER, 1);
    let (out0, out1) = m
        .withdraw_position(USER, -10, 10, withdraw_amount, [0, 0])
        .unwrap();
    assert_eq!(m.balance(USER, 0), balance0_before + out0 as i128);
    assert_eq!(m.balance(USER, 1), balance1_before + out1 as i128);

    let remaining = liquidity - withdraw_amount;
    let pos = m.get_position(USER, -10, 10).unwrap();
    assert_eq!(pos.liquidity, remaining);
    assert_eq!(pos.tokens_owed_0, 0);
    assert_eq!(pos.tokens_owed_1, 0);
    assert_eq!(m.get_tick(-10).liquidity_gross, remaining);
}

#[test]
fn test_full_withdrawal_deletes_position_and_clears_ticks() {
    let mut m = Market::new();
    m.mint(USER, 100_0000000, 100_0000000);
    let (_, liquidity) = m
        .deposit_position(USER, -10, 10, [50_0000000, 50_0000000], 0)
        .unwrap();
    let balance0_before = m.balance(USER, 0);
    let balance1_before = m.balance(USER, 1);
    let (out0, out1) = m.withdraw_position(USER, -10, 10, liquidity, [0, 0]).unwrap();
    assert!(out0 > 0 || out1 > 0);
    assert_eq!(m.balance(USER, 0), balance0_before + out0 as i128);
    assert_eq!(m.balance(USER, 1), balance1_before + out1 as i128);

    // The position is gone and its ticks are cleared.
    assert!(m.get_position(USER, -10, 10).is_none());
    assert_eq!(m.get_tick(-10).liquidity_gross, 0);
    assert_eq!(m.get_tick(10).liquidity_gross, 0);
    assert!(m.chunk_bitmap_is_zero(-1));
    assert!(m.chunk_bitmap_is_zero(0));
}

#[test]
fn test_withdraw_clears_only_non_shared_upper_tick() {
    let mut m = Market::new();
    let user2 = 2;
    m.mint(USER, 1_000_0000000, 1_000_0000000);
    m.mint(user2, 1_000_0000000, 1_000_0000000);

    let amounts = [300_0000000u128, 300_0000000u128];
    let (_, liq1) = m.deposit_position(USER, -100, 100, amounts, 0).unwrap();
    let (_, liq2) = m.deposit_position(user2, -100, 200, amounts, 0).unwrap();
    m.withdraw_position(USER, -100, 100, liq1, [0, 0]).unwrap();

    let lower = m.get_tick(-100);
    assert_eq!(lower.liquidity_gross, liq2);
    assert_eq!(lower.liquidity_net, liq2 as i128);
    let middle = m.get_tick(100);
    assert_eq!(middle.liquidity_gross, 0);
    assert_eq!(middle.liquidity_net, 0);
    let upper = m.get_tick(200);
    assert_eq!(upper.liquidity_gross, liq2);
    assert_eq!(upper.liquidity_net, -(liq2 as i128));
}

#[test]
fn test_withdraw_clears_only_non_shared_lower_tick() {
    let mut m = Market::new();
    let user2 = 2;
    m.mint(USER, 1_000_0000000, 1_000_0000000);
    m.mint(user2, 1_000_0000000, 1_000_0000000);

    let amounts = [300_0000000u128, 300_0000000u128];
    let (_, liq1) = m.deposit_position(USER, -100, 100, amounts, 0).unwrap();
    let (_, liq2) = m.deposit_position(user2, -200, 100, amounts, 0).unwrap();
    m.withdraw_position(USER, -100, 100, liq1, [0, 0]).unwrap();

    let lower = m.get_tick(-100);
    assert_eq!(lower.liquidity_gross, 0);
    assert_eq!(lower.liquidity_net, 0);
    let lower_user2 = m.get_tick(-200);
    assert_eq!(lower_user2.liquidity_gross, liq2);
    assert_eq!(lower_user2.liquidity_net, liq2 as i128);
    let upper = m.get_tick(100);
    assert_eq!(upper.liquidity_gross, liq2);
    assert_eq!(upper.liquidity_net, -(liq2 as i128));
}

#[test]
fn test_position_accrues_fees_from_swaps() {
    let mut m = Market::new();
    m.mint(USER, 1_000_0000000, 1_000_0000000);
    let (_, liquidity) = m
        .deposit_position(USER, -100, 100, [500_0000000, 500_0000000], 0)
        .unwrap();

    let swapper = 3;
    m.mint(swapper, 50_0000000, 0);
    let out = m.swap(swapper, 0, 1, 10_0000000, 0).unwrap();
    assert!(out > 0);

    let balance0_before = m.balance(USER, 0);
    let balance1_before = m.balance(USER, 1);
    m.withdraw_position(USER, -100, 100, liquidity, [0, 0]).unwrap();
    let received0 = (m.balance(USER, 0) - balance0_before) as u128;
    let received1 = (m.balance(USER, 1) - balance1_before) as u128;
    assert!(received0 > 0 || received1 > 0, "LP should receive fee revenue");
}

#[test]
fn test_claim_position_fees_without_withdrawal() {
    let mut m = Market::new();
    m.mint(USER, 1_000_0000000, 1_000_0000000);
    let (_, liquidity) = m
        .deposit_position(USER, -100, 100, [500_0000000, 500_0000000], 0)
        .unwrap();
    let swapper = 3;
    m.mint(swapper, 10_0000000, 0);
    m.swap(swapper, 0, 1, 10_0000000, 0).unwrap();

    let balance0_before = m.balance(USER, 0);
    let balance1_before = m.balance(USER, 1);
    let (claimed0, claimed1) = m.claim_position_fees(USER, -100, 100).unwrap();

    assert_eq!(m.get_position(USER, -100, 100).unwrap().liquidity, liquidity);
    assert_eq!(m.balance(USER, 0), balance0_before + claimed0 as i128);
    assert_eq!(m.balance(USER, 1), balance1_before + claimed1 as i128);
}

#[test]
fn test_withdraw_position_auto_claims_fees() {
    let mut m = Market::new();
    m.mint(USER, 1_000_0000000, 1_000_0000000);
    let (_, liquidity) = m
        .deposit_position(USER, -100, 100, [500_0000000, 500_0000000], 0)
        .unwrap();
    let swapper = 3;
    m.mint(swapper, 10_0000000, 0);
    m.swap(swapper, 0, 1, 10_0000000, 0).unwrap();

    let (fees_before0, fees_before1) = m.get_position_fees(USER, -100, 100);
    assert!(fees_before0 > 0 || fees_before1 > 0);

    let burn_amount = liquidity / 2;
    let (estimated0, estimated1) = m.estimate_withdraw_position(USER, -100, 100, burn_amount);
    let bal0_before = m.balance(USER, 0);
    let bal1_before = m.balance(USER, 1);
    let (withdraw0, withdraw1) = m
        .withdraw_position(USER, -100, 100, burn_amount, [0, 0])
        .unwrap();
    assert_eq!(withdraw0, estimated0);
    assert_eq!(withdraw1, estimated1);
    assert_eq!(m.balance(USER, 0), bal0_before + withdraw0 as i128);
    assert_eq!(m.balance(USER, 1), bal1_before + withdraw1 as i128);

    let after = m.get_position(USER, -100, 100).unwrap();
    assert_eq!(after.tokens_owed_0, 0);
    assert_eq!(after.tokens_owed_1, 0);

    let (claimed0_second, claimed1_second) = m.claim_position_fees(USER, -100, 100).unwrap();
    assert_eq!(claimed0_second, 0);
    assert_eq!(claimed1_second, 0);
}

#[test]
fn test_protocol_fee_accumulates_and_collects() {
    let mut m = Market::new();
    m.mint(USER, 1_000_0000000, 1_000_0000000);
    m.deposit(USER, [200_0000000, 200_0000000], 0).unwrap();

    let swapper = 3;
    m.mint(swapper, 100_0000000, 100_0000000);
    m.swap(swapper, 0, 1, 20_0000000, 0).unwrap();
    m.swap(swapper, 1, 0, 20_0000000, 0).unwrap();

    let fees = m.pool.protocol_fees;
    assert!(fees.token0 > 0 || fees.token1 > 0, "protocol fees should accumulate");

    let claimed = m.pool.claim_protocol_fees();
    assert_eq!(claimed, (fees.token0, fees.token1));
    assert_eq!(m.pool.protocol_fees.token0, 0);
    assert_eq!(m.pool.protocol_fees.token1, 0);
}

#[test]
fn fee_growth_inside_matches_tick_records() {
    // The fee growth inside a range, recomputed from the global and tick records, matches
    // what the pool reports.
    let mut m = Market::new();
    m.mint(USER, 1_000_0000000, 1_000_0000000);
    m.deposit_position(USER, -100, 100, [500_0000000, 500_0000000], 0)
        .unwrap();
    let swapper = 3;
    m.mint(swapper, 50_0000000, 0);
    m.swap(swapper, 0, 1, 10_0000000, 0).unwrap();

    let slot = m.pool.slot0;
    let g0 = m.pool.fee_growth_global_0_x128;
    let lower = m.get_tick(-100);
    let upper = m.get_tick(100);
    let below0 = if slot.tick >= -100 {
        lower.fee_growth_outside_0_x128
    } else {
        wrapping_sub_u256(&g0, &lower.fee_growth_outside_0_x128)
    };
    let above0 = if slot.tick < 100 {
        upper.fee_growth_outside_0_x128
    } else {
        wrapping_sub_u256(&g0, &upper.fee_growth_outside_0_x128)
    };
    let inside0 = wrapping_sub_u256(&wrapping_sub_u256(&g0, &below0), &above0);
    let (reported0, _) = m.pool.compute_fee_growth_inside(-100, 100, slot.tick);
    assert_eq!(reported0, inside0);
    assert!(inside0 != U256::zero());
}

#[test]
fn test_swap_both_directions() {
    let mut m = Market::new();
    m.mint(USER, 1_000_0000000, 1_000_0000000);
    m.deposit(USER, [200_0000000, 200_0000000], 0).unwrap();
    let slot_before = m.pool.slot0;

    let out_0to1 = m.swap(USER, 0, 1, 5_0000000, 0).unwrap();
    assert!(out_0to1 > 0);
    let slot_mid = m.pool.slot0;
    assert!(slot_mid.tick < slot_before.tick, "price should decrease for 0->1");

    let out_1to0 = m.swap(USER, 1, 0, 5_0000000, 0).unwrap();
    assert!(out_1to0 > 0);
    let slot_after = m.pool.slot0;
    assert!(slot_after.tick > slot_mid.tick, "price should increase for 1->0");
}

#[test]
fn test_swap_crossing_multiple_ticks() {
    let mut m = Market::with(30, 10);
    m.mint(USER, 1_000_0000000, 1_000_0000000);
    let amounts = [1_0000000u128, 1_0000000u128];
    m.deposit_position(USER, -10, 10, amounts, 0).unwrap();
    m.deposit_position(USER, -50, -10, amounts, 0).unwrap();
    m.deposit_position(USER, 10, 50, amounts, 0).unwrap();
    let slot_before = m.pool.slot0;

    let swapper = 3;
    m.mint(swapper, 100_0000000, 0);
    let out = m.swap(swapper, 0, 1, 50_0000000, 0).unwrap();
    assert!(out > 0);

    let slot_after = m.pool.slot0;
    let ticks_crossed = (slot_before.tick - slot_after.tick).abs() / 10;
    assert!(ticks_crossed > 1, "swap should cross multiple ticks, crossed {}", ticks_crossed);
}

#[test]
fn test_swap_across_liquidity_gap() {
    let mut m = Market::with(30, 10);
    m.mint(USER, 1_000_0000000, 1_000_0000000);
    m.deposit_position(USER, -10, 10, [100, 100], 0).unwrap();

    let (_, liq_below) = m.deposit_position(USER, -60, -20, [0, 10_0000000], 0).unwrap();
    assert!(liq_below > 0);
    let (_, liq_above) = m.deposit_position(USER, 20, 60, [10_0000000, 0], 0).unwrap();
    assert!(liq_above > 0);

    let swapper = 3;
    m.mint(swapper, 5_0000000, 0);
    let out = m.swap(swapper, 0, 1, 5_0000000, 0).unwrap();
    assert!(out > 0, "swap should produce output by crossing the gap");
    assert!(m.pool.slot0.tick < -20, "tick should be below -20, got {}", m.pool.slot0.tick);

    let estimate = m.pool.estimate_swap(0, 1, out).unwrap();
    assert!(estimate > 0, "estimate should also cross the gap");
}

#[test]
fn test_estimate_swap_matches_actual() {
    let mut m = Market::new();
    m.mint(USER, 1_000_0000000, 1_000_0000000);
    m.deposit(USER, [200_0000000, 200_0000000], 0).unwrap();

    let estimate_0to1 = m.pool.estimate_swap(0, 1, 5_0000000).unwrap();
    let actual_0to1 = m.swap(USER, 0, 1, 5_0000000, 0).unwrap();
    assert_eq!(estimate_0to1, actual_0to1);

    let estimate_1to0 = m.pool.estimate_swap(1, 0, 5_0000000).unwrap();
    let actual_1to0 = m.swap(USER, 1, 0, 5_0000000, 0).unwrap();
    assert_eq!(estimate_1to0, actual_1to0);
}

#[test]
fn test_set_protocol_fee_fraction() {
    let mut m = Market::new();
    assert_eq!(m.pool.protocol_fee_fraction, 5_000);
    m.pool.set_protocol_fee_fraction(0).unwrap();
    assert_eq!(m.pool.protocol_fee_fraction, 0);
    m.pool.set_protocol_fee_fraction(10_000).unwrap();
    assert_eq!(m.pool.protocol_fee_fraction, 10_000);
}

#[test]
fn test_set_protocol_fee_fraction_too_high() {
    let mut m = Market::new();
    assert_eq!(
        m.pool.set_protocol_fee_fraction(10_001),
        Err(LiquidityPoolValidationError::FeeOutOfBounds)
    );
    assert_eq!(m.pool.protocol_fee_fraction, 5_000);
}

#[test]
fn test_kill_unkill_swap() {
    let mut m = Market::new();
    m.mint(USER, 100_0000000, 100_0000000);
    m.deposit(USER, [50_0000000, 50_0000000], 0).unwrap();

    m.pool.is_killed_swap = true;
    assert!(m.swap(USER, 0, 1, 1_0000000, 0).is_err());

    m.pool.is_killed_swap = false;
    let out = m.swap(USER, 0, 1, 1_0000000, 0).unwrap();
    assert!(out > 0);
}

#[test]
fn test_kill_unkill_deposit() {
    let mut m = Market::new();
    m.mint(USER, 100_0000000, 100_0000000);
    m.pool.is_killed_deposit = true;
    let amounts = [10_0000000u128, 10_0000000u128];
    assert!(m.deposit_position(USER, -10, 10, amounts, 0).is_err());

    m.pool.is_killed_deposit = false;
    m.deposit_position(USER, -10, 10, amounts, 0).unwrap();
}

#[test]
fn test_estimate_deposit_position_matches_execute() {
    let mut m = Market::new();
    m.mint(USER, 2_000_0000000, 2_000_0000000);
    let desired = [700_000000u128, 900_000000u128];
    let (e0, e1, est_liq) = m.pool.estimate_deposit_position(-3000, 3000, &desired.to_vec()).unwrap();
    let (actual_amounts, actual_liq) = m.deposit_position(USER, -3000, 3000, desired, 0).unwrap();
    assert_eq!(est_liq, actual_liq);
    assert_eq!(e0, actual_amounts[0]);
    assert_eq!(e1, actual_amounts[1]);
}

#[test]
fn test_estimate_withdraw_position_matches_execute() {
    let mut m = Market::new();
    m.mint(USER, 1_000_0000000, 1_000_0000000);
    let (_, liquidity) = m
        .deposit_position(USER, -150, 150, [400_000000, 400_000000], 0)
        .unwrap();
    let burn = liquidity / 3;
    let (est0, est1) = m.estimate_withdraw_position(USER, -150, 150, burn);
    let (actual0, actual1) = m.withdraw_position(USER, -150, 150, burn, [0, 0]).unwrap();
    assert_eq!(est0, actual0);
    assert_eq!(est1, actual1);
}

#[test]
fn test_get_position_fees_matches_claim_position_fees() {
    let mut m = Market::new();
    m.mint(USER, 1_000_0000000, 1_000_0000000);
    m.deposit_position(USER, -100, 100, [500_000000, 500_000000], 0)
        .unwrap();
    let swapper = 3;
    m.mint(swapper, 10_0000000, 0);
    m.swap(swapper, 0, 1, 10_0000000, 0).unwrap();

    let (preview0, preview1) = m.get_position_fees(USER, -100, 100);
    let (claimed0, claimed1) = m.claim_position_fees(USER, -100, 100).unwrap();
    assert_eq!(preview0, claimed0);
    assert_eq!(preview1, claimed1);
}

#[test]
fn test_claim_all_position_fees_and_estimate() {
    let mut m = Market::new();
    m.mint(USER, 2_000_0000000, 2_000_0000000);
    let amounts = [600_000000u128, 600_000000u128];
    m.deposit_position(USER, -120, 120, amounts, 0).unwrap();
    m.deposit_position(USER, -60, 60, amounts, 0).unwrap();

    let swapper = 3;
    m.mint(swapper, 25_0000000, 0);
    m.swap(swapper, 0, 1, 25_0000000, 0).unwrap();

    let (pos1_0, pos1_1) = m.get_position_fees(USER, -120, 120);
    let (pos2_0, pos2_1) = m.get_position_fees(USER, -60, 60);
    let (all0, all1) = m.get_all_position_fees(USER);
    assert_eq!(all0, pos1_0 + pos2_0);
    assert_eq!(all1, pos1_1 + pos2_1);
    assert!(all0 > 0 || all1 > 0);

    let bal0_before = m.balance(USER, 0);
    let bal1_before = m.balance(USER, 1);
    let (claimed0, claimed1) = m.claim_all_position_fees(USER).unwrap();
    assert_eq!(claimed0, all0);
    assert_eq!(claimed1, all1);
    assert_eq!(m.balance(USER, 0), bal0_before + claimed0 as i128);
    assert_eq!(m.balance(USER, 1), bal1_before + claimed1 as i128);

    let (left0, left1) = m.get_all_position_fees(USER);
    assert_eq!(left0, 0);
    assert_eq!(left1, 0);

    let user2 = 2;
    assert_eq!(m.get_all_position_fees(user2), (0, 0));
    assert_eq!(m.claim_all_position_fees(user2), Ok((0, 0)));
}

#[test]
fn test_two_users_overlapping_positions() {
    let mut m = Market::new();
    let user2 = 2;
    m.mint(USER, 500_0000000, 500_0000000);
    m.mint(user2, 500_0000000, 500_0000000);

    let (_, liq1) = m.deposit_position(USER, -50, 50, [200_0000000, 200_0000000], 0).unwrap();
    let (_, liq2) = m.deposit_position(user2, -20, 20, [200_0000000, 200_0000000], 0).unwrap();
    assert_eq!(m.pool.liquidity, liq1 + liq2);

    let swapper = 3;
    m.mint(swapper, 10_0000000, 0);
    m.swap(swapper, 0, 1, 10_0000000, 0).unwrap();

    let (u1_fee0, u1_fee1) = m.claim_position_fees(USER, -50, 50).unwrap();
    let (u2_fee0, u2_fee1) = m.claim_position_fees(user2, -20, 20).unwrap();
    assert!(u1_fee0 > 0 || u1_fee1 > 0, "user1 should get fees");
    assert!(u2_fee0 > 0 || u2_fee1 > 0, "user2 should get fees");
}

#[test]
fn test_multiple_positions_same_user() {
    let mut m = Market::new();
    m.mint(USER, 1_000_0000000, 1_000_0000000);
    let (_, liq2) = m.deposit_position(USER, -10, 10, [200_0000000, 200_0000000], 0).unwrap();
    let (_, liq1) = m.deposit_position(USER, -100, -50, [100_0000000, 100_0000000], 0).unwrap();
    let (_, liq3) = m.deposit_position(USER, 50, 100, [100_0000000, 100_0000000], 0).unwrap();

    let state = &m.users[&USER];
    assert_eq!(state.positions.len(), 3);
    assert_eq!(state.raw_liquidity, liq1 + liq2 + liq3);
}

#[test]
fn test_get_reserves_excludes_protocol_fees() {
    let mut m = Market::new();
    m.mint(USER, 1_000_0000000, 1_000_0000000);
    m.deposit(USER, [200_0000000, 200_0000000], 0).unwrap();

    let swapper = 3;
    m.mint(swapper, 50_0000000, 0);
    m.swap(swapper, 0, 1, 20_0000000, 0).unwrap();

    // The pool holds its reserves plus the protocol fees; its reported reserves leave them out.
    let paid_in: i128 = -(m.balance(USER, 0) - 1_000_0000000) + 20_0000000;
    assert_eq!(m.pool_balance(0) as i128, paid_in);
    assert_eq!(m.pool_balance(0), m.pool.reserve0 + m.pool.protocol_fees.token0);
    assert!(m.pool.protocol_fees.token0 > 0);
}

#[test]
fn test_tick_not_spaced_correctly() {
    let mut m = Market::with(30, 10);
    m.mint(USER, 100_0000000, 100_0000000);
    let r = m.deposit_position(USER, -5, 5, [10_0000000, 10_0000000], 0);
    assert_eq!(r, Err(pool_err(ConcentratedPoolError::TickNotSpacedCorrectly)));
    assert_eq!(ConcentratedPoolError::TickNotSpacedCorrectly.code(), 2109);
}

#[test]
fn test_liquidity_amount_too_large() {
    let mut m = Market::new();
    m.mint(USER, 100_0000000, 100_0000000);
    let result = m.pool.estimate_deposit_position(-10, 10, &vec![u128::MAX, u128::MAX]);
    assert!(result.is_err());
    let existing = None;
    let mut state = UserState { positions: Vec::new(), raw_liquidity: 0, weighted_liquidity: 0 };
    let result = m.pool.deposit_position(existing, &mut state, -10, 10, &vec![u128::MAX, u128::MAX], 0);
    assert!(result.is_err());
}

#[test]
fn test_deposit_position_killed() {
    let mut m = Market::new();
    m.mint(USER, 100_0000000, 100_0000000);
    m.pool.is_killed_deposit = true;
    let r = m.deposit_position(USER, -10, 10, [10_0000000, 10_0000000], 0);
    assert_eq!(r, Err(pool_err(ConcentratedPoolError::DepositKilled)));
}

#[test]
fn claim_all_removes_emptied_positions_and_their_ranges() {
    let mut m = Market::new();
    m.mint(USER, 1_000_0000000, 1_000_0000000);
    let (_, l1) = m.deposit_position(USER, -100, 100, [100_0000000, 100_0000000], 0).unwrap();
    m.deposit_position(USER, -50, 50, [100_0000000, 100_0000000], 0).unwrap();
    let swapper = 3;
    m.mint(swapper, 20_0000000, 0);
    m.swap(swapper, 0, 1, 20_0000000, 0).unwrap();

    // Store the first position as one without liquidity that still owes its fees.
    let mut p = m.get_position(USER, -100, 100).unwrap();
    let (owed0, owed1) = m.get_position_fees(USER, -100, 100);
    p.liquidity = 0;
    p.tokens_owed_0 = owed0;
    p.tokens_owed_1 = owed1;
    p.fee_growth_inside_0_last_x128 = m.pool.compute_fee_growth_inside(-100, 100, m.pool.slot0.tick).0;
    p.fee_growth_inside_1_last_x128 = m.pool.compute_fee_growth_inside(-100, 100, m.pool.slot0.tick).1;
    m.positions.insert((USER, -100, 100), p);
    assert!(l1 > 0);

    let (all0, _) = m.get_all_position_fees(USER);
    let (c0, _) = m.claim_all_position_fees(USER).unwrap();
    assert_eq!(c0, all0);
    assert!(m.get_position(USER, -100, 100).is_none());
    assert!(m.get_position(USER, -50, 50).is_some());
    assert_eq!(
        m.users[&USER].positions,
        vec![PositionRange { tick_lower: -50, tick_upper: 50 }]
    );
}

fn stacked_spacing_10() -> Market {
    let mut m = Market::with(30, 10);
    m.mint(USER, 2_000_0000000, 2_000_0000000);
    let amounts = [1_0000000u128, 1_0000000u128];
    m.deposit_position(USER, -10, 10, amounts, 0).unwrap();
    m.deposit_position(USER, -50, -10, amounts, 0).unwrap();
    m.deposit_position(USER, 10, 50, amounts, 0).unwrap();
    m
}

#[test]
fn test_exact_output_swap_crossing_multiple_ticks() {
    let mut m = stacked_spacing_10();
    let desired_out: u128 = 1_5000000;
    let estimated_in = m.pool.estimate_swap_strict_receive(0, 1, desired_out).unwrap();
    assert!(estimated_in > 0);

    let swapper = 3;
    m.mint(swapper, estimated_in as i128 * 2, 0);
    let in_max = estimated_in * 2;
    let actual_in = m.swap_strict_receive(swapper, 0, 1, desired_out, in_max).unwrap();
    assert_eq!(actual_in, estimated_in);
    assert!(m.pool.slot0.tick < -10, "final tick={}", m.pool.slot0.tick);
    assert_eq!(m.balance(swapper, 0), (in_max as i128) - actual_in as i128);
    assert_eq!(m.balance(swapper, 1), desired_out as i128);
}

#[test]
fn test_exact_output_swap_one_for_zero_crossing_ticks() {
    let mut m = stacked_spacing_10();
    let desired_out: u128 = 1_5000000;
    let estimated_in = m.pool.estimate_swap_strict_receive(1, 0, desired_out).unwrap();
    assert!(estimated_in > 0);

    let swapper = 3;
    m.mint(swapper, 0, estimated_in as i128 * 2);
    let actual_in = m.swap_strict_receive(swapper, 1, 0, desired_out, estimated_in * 2).unwrap();
    assert_eq!(actual_in, estimated_in);
    assert!(m.pool.slot0.tick > 10, "final tick={}", m.pool.slot0.tick);
}

#[test]
fn test_fee_growth_accuracy_across_tick_crossings() {
    let mut m = Market::with(30, 10);
    let (lp1, lp2) = (1, 2);
    m.mint(lp1, 1_000_0000000, 1_000_0000000);
    m.mint(lp2, 1_000_0000000, 1_000_0000000);
    let (_, liq_wide) = m.deposit_position(lp1, -100, 100, [100_0000000, 100_0000000], 0).unwrap();
    let (_, liq_narrow) = m.deposit_position(lp2, -20, 20, [100_0000000, 100_0000000], 0).unwrap();
    assert!(liq_wide > 0);
    assert!(liq_narrow > 0);

    let swapper = 3;
    m.mint(swapper, 200_0000000, 0);
    let input_amount = 150_0000000u128;
    let amount_out = m.swap(swapper, 0, 1, input_amount, 0).unwrap();
    assert!(amount_out > 0);
    assert!(m.pool.slot0.tick < -20, "final tick={}", m.pool.slot0.tick);

    let (wide_fee0, _) = m.claim_position_fees(lp1, -100, 100).unwrap();
    let (narrow_fee0, _) = m.claim_position_fees(lp2, -20, 20).unwrap();
    assert!(wide_fee0 > 0);
    assert!(narrow_fee0 > 0);

    // The wide position was in range for the whole swap: more fee per unit of liquidity.
    let wide_fee0_per_liq = (wide_fee0 * 1_000_000) / liq_wide;
    let narrow_fee0_per_liq = (narrow_fee0 * 1_000_000) / liq_narrow;
    assert!(wide_fee0_per_liq > narrow_fee0_per_liq);

    // LP fees plus the protocol share come to about 30 bps of the input.
    let total_fee0 = wide_fee0 + narrow_fee0 + m.pool.protocol_fees.token0;
    let expected_total_fee = input_amount * 30 / 10000;
    let tolerance = expected_total_fee / 100 + 1;
    assert!(total_fee0.abs_diff(expected_total_fee) <= tolerance);
}

#[test]
fn test_fee_proportionality_same_range() {
    let mut m = Market::new();
    let user2 = 2;
    m.mint(USER, 600_0000000, 600_0000000);
    m.mint(user2, 300_0000000, 300_0000000);
    let (_, liq1) = m.deposit_position(USER, -50, 50, [400_0000000, 400_0000000], 0).unwrap();
    let (_, liq2) = m.deposit_position(user2, -50, 50, [200_0000000, 200_0000000], 0).unwrap();
    assert!(liq1 > 0 && liq2 > 0);
    let liq_ratio_bps = (liq1 * 10000) / liq2;
    assert!((19800..=20200).contains(&liq_ratio_bps), "ratio {}", liq_ratio_bps);

    let swapper = 3;
    m.mint(swapper, 50_0000000, 50_0000000);
    assert!(m.swap(swapper, 0, 1, 20_0000000, 0).unwrap() > 0);
    assert!(m.swap(swapper, 1, 0, 20_0000000, 0).unwrap() > 0);
    let tick = m.pool.slot0.tick;
    assert!(tick > -50 && tick < 50, "tick={}", tick);

    let (u1_fee0, u1_fee1) = m.claim_position_fees(USER, -50, 50).unwrap();
    let (u2_fee0, u2_fee1) = m.claim_position_fees(user2, -50, 50).unwrap();
    assert!(u1_fee0 > 0 || u1_fee1 > 0);
    assert!(u2_fee0 > 0 || u2_fee1 > 0);
    if u2_fee0 > 0 {
        let r = (u1_fee0 * 10000) / u2_fee0;
        assert!((19500..=20500).contains(&r), "fee0 ratio {}", r);
    }
    if u2_fee1 > 0 {
        let r = (u1_fee1 * 10000) / u2_fee1;
        assert!((19500..=20500).contains(&r), "fee1 ratio {}", r);
    }
    let total_fee0 = u1_fee0 + u2_fee0 + m.pool.protocol_fees.token0;
    let total_fee1 = u1_fee1 + u2_fee1 + m.pool.protocol_fees.token1;
    assert!(total_fee0 > 0 || total_fee1 > 0);
}

#[test]
fn test_min_max_tick_boundary_deposit_and_swap() {
    let tick_spacing: i32 = 200;
    let mut m = Market::with(100, tick_spacing);
    let mut min_tick_aligned = -887_272 - (-887_272 % tick_spacing);
    if min_tick_aligned < -887_272 {
        min_tick_aligned += tick_spacing;
    }
    let mut max_tick_aligned = 887_272 - (887_272 % tick_spacing);
    if max_tick_aligned > 887_272 {
        max_tick_aligned -= tick_spacing;
    }
    m.mint(USER, 10_000_0000000, 10_000_0000000);
    let (_, liq) = m
        .deposit_position(USER, min_tick_aligned, max_tick_aligned, [100_0000000, 100_0000000], 0)
        .unwrap();
    assert!(liq > 0);
    let lower = m.get_tick(min_tick_aligned);
    assert_eq!(lower.liquidity_gross, liq);
    assert_eq!(lower.liquidity_net, liq as i128);
    let upper = m.get_tick(max_tick_aligned);
    assert_eq!(upper.liquidity_gross, liq);
    assert_eq!(upper.liquidity_net, -(liq as i128));

    let swapper = 3;
    m.mint(swapper, 5_000_0000000, 0);
    assert!(m.swap(swapper, 0, 1, 2_000_0000000, 0).unwrap() > 0);
    assert!(m.pool.slot0.tick < 0, "tick={}", m.pool.slot0.tick);

    m.mint(swapper, 0, 5_000_0000000);
    assert!(m.swap(swapper, 1, 0, 4_000_0000000, 0).unwrap() > 0);
    assert!(m.pool.slot0.tick > 0, "tick={}", m.pool.slot0.tick);

    let (w0, w1) = m
        .withdraw_position(USER, min_tick_aligned, max_tick_aligned, liq, [0, 0])
        .unwrap();
    assert!(w0 > 0 || w1 > 0);
}

#[test]
fn test_zero_liquidity_gap_no_fee_growth() {
    let mut m = Market::with(30, 10);
    m.mint(USER, 1_000_0000000, 1_000_0000000);
    m.deposit_position(USER, -10, 10, [100, 100], 0).unwrap();
    let (_, liq_a) = m.deposit_position(USER, -60, -20, [0, 50_0000000], 0).unwrap();
    let (_, liq_b) = m.deposit_position(USER, 40, 80, [50_0000000, 0], 0).unwrap();
    assert!(liq_a > 0 && liq_b > 0);

    let swapper = 3;
    m.mint(swapper, 100_0000000, 0);
    assert!(m.swap(swapper, 0, 1, 50_0000000, 0).unwrap() > 0);
    assert!(m.pool.slot0.tick < -20, "tick={}", m.pool.slot0.tick);

    let (fee_a0, _fee_a1) = m.claim_position_fees(USER, -60, -20).unwrap();
    assert!(fee_a0 > 0);
    let (fee_b0, fee_b1) = m.claim_position_fees(USER, 40, 80).unwrap();
    assert_eq!(fee_b0, 0);
    assert_eq!(fee_b1, 0);
    let total_fee0 = fee_a0 + m.pool.protocol_fees.token0;
    assert!(total_fee0 > 0);
}

#[test]
fn test_tick_crossing_fee_growth_outside_flip() {
    let mut m = Market::with(30, 10);
    m.mint(USER, 1_000_0000000, 1_000_0000000);
    let (_, liq) = m.deposit_position(USER, -20, 20, [100_0000000, 100_0000000], 0).unwrap();
    assert!(liq > 0);
    m.deposit_position(USER, -40, -20, [50_0000000, 50_0000000], 0).unwrap();
    let tick_lower_before = m.get_tick(-20);

    let swapper = 3;
    m.mint(swapper, 200_0000000, 0);
    m.swap(swapper, 0, 1, 10_0000000, 0).unwrap();
    m.swap(swapper, 0, 1, 100_0000000, 0).unwrap();
    assert!(m.pool.slot0.tick < -20, "tick={}", m.pool.slot0.tick);

    let tick_lower_after = m.get_tick(-20);
    assert!(tick_lower_after.fee_growth_outside_0_x128 != tick_lower_before.fee_growth_outside_0_x128);

    let (claimed0, _) = m.claim_position_fees(USER, -20, 20).unwrap();
    assert!(claimed0 > 0);
    let (catch_fee0, _) = m.claim_position_fees(USER, -40, -20).unwrap();
    assert!(catch_fee0 > 0);

    m.mint(swapper, 0, 200_0000000);
    m.swap(swapper, 1, 0, 100_0000000, 0).unwrap();
    assert!(m.pool.slot0.tick > -20, "tick={}", m.pool.slot0.tick);
    let tick_lower_after2 = m.get_tick(-20);
    assert!(tick_lower_after2.fee_growth_outside_0_x128 != tick_lower_after.fee_growth_outside_0_x128);

    let (_, claimed1_2) = m.claim_position_fees(USER, -20, 20).unwrap();
    assert!(claimed1_2 > 0);
}

#[test]
fn test_exact_output_with_low_in_max_fails() {
    let mut m = Market::new();
    m.mint(USER, 1_000_0000000, 1_000_0000000);
    m.deposit_position(USER, -100, 100, [200_0000000, 200_0000000], 0).unwrap();
    let swapper = 3;
    m.mint(swapper, 500_0000000, 0);
    let desired_out: u128 = 100_0000000;
    let estimated_in = m.pool.estimate_swap_strict_receive(0, 1, desired_out).unwrap();
    assert!(estimated_in > 0);
    let result = m.swap_strict_receive(swapper, 0, 1, desired_out, estimated_in - 1);
    assert!(result.is_err());
}

#[test]
fn test_exact_output_with_low_in_max_one_for_zero_fails() {
    let mut m = Market::new();
    m.mint(USER, 1_000_0000000, 1_000_0000000);
    m.deposit_position(USER, -100, 100, [200_0000000, 200_0000000], 0).unwrap();
    let swapper = 3;
    m.mint(swapper, 0, 500_0000000);
    let desired_out: u128 = 100_0000000;
    let estimated_in = m.pool.estimate_swap_strict_receive(1, 0, desired_out).unwrap();
    assert!(estimated_in > 0);
    let result = m.swap_strict_receive(swapper, 1, 0, desired_out, estimated_in - 1);
    assert!(result.is_err());
}

#[test]
fn test_position_reinit_after_full_withdraw() {
    let mut m = Market::new();
    m.mint(USER, 1_000_0000000, 1_000_0000000);
    let (_, liq1) = m.deposit_position(USER, -30, 30, [100_0000000, 100_0000000], 0).unwrap();
    assert!(liq1 > 0);
    let swapper = 3;
    m.mint(swapper, 20_0000000, 0);
    m.swap(swapper, 0, 1, 10_0000000, 0).unwrap();

    let (owed0, owed1) = m.withdraw_position(USER, -30, 30, liq1, [0, 0]).unwrap();
    assert!(owed0 > 0 || owed1 > 0);
    assert_eq!(m.get_tick(-30).liquidity_gross, 0);

    let (_, liq2) = m.deposit_position(USER, -30, 30, [50_0000000, 50_0000000], 0).unwrap();
    assert!(liq2 > 0);
    let pos = m.get_position(USER, -30, 30).unwrap();
    assert_eq!(pos.liquidity, liq2);
    assert_eq!(pos.tokens_owed_0, 0);
    assert_eq!(pos.tokens_owed_1, 0);
    assert_eq!(m.get_tick(-30).liquidity_gross, liq2);
}

#[test]
fn test_fee_accrual_during_second_deposit() {
    let mut m = Market::new();
    let user2 = 2;
    m.mint(USER, 500_0000000, 500_0000000);
    m.mint(user2, 500_0000000, 500_0000000);
    let (_, liq1) = m.deposit_position(USER, -50, 50, [100_0000000, 100_0000000], 0).unwrap();
    let swapper = 3;
    m.mint(swapper, 20_0000000, 0);
    m.swap(swapper, 0, 1, 10_0000000, 0).unwrap();

    let (_, liq_add) = m.deposit_position(USER, -50, 50, [100_0000000, 100_0000000], 0).unwrap();
    assert!(liq_add > 0);
    let pos = m.get_position(USER, -50, 50).unwrap();
    assert_eq!(pos.liquidity, liq1 + liq_add);
    assert!(pos.tokens_owed_0 > 0);

    let (claimed0, _claimed1) = m.claim_position_fees(USER, -50, 50).unwrap();
    assert!(claimed0 > 0);
    assert_eq!(m.get_position(USER, -50, 50).unwrap().tokens_owed_0, 0);
}

#[test]
fn test_deposit_position_snapshots_after_tick_initialization() {
    let mut m = Market::new();
    m.mint(USER, 5000_0000000, 5000_0000000);
    let desired = [1000_0000000u128, 1000_0000000u128];
    let (_, base_liquidity) = m.deposit_position(USER, -887260, 887260, desired, 0).unwrap();
    assert!(base_liquidity > 0);

    m.swap(USER, 0, 1, 2_0462601, 2_0196431).unwrap();
    let tick = m.pool.slot0.tick;
    assert!(tick >= -160 && tick < 60);

    let (_, range_liquidity) = m.deposit_position(USER, -160, 60, desired, 0).unwrap();
    assert!(range_liquidity > 0);
    let position = m.get_position(USER, -160, 60).unwrap();
    let (inside0, inside1) = m.pool.compute_fee_growth_inside(-160, 60, m.pool.slot0.tick);
    assert_eq!(position.fee_growth_inside_0_last_x128, inside0);
    assert_eq!(position.fee_growth_inside_1_last_x128, inside1);
}

#[test]
fn test_withdraw_position_after_swap_ok() {
    let mut m = Market::new();
    m.mint(USER, 5000_0000000, 5000_0000000);
    let desired = [1000_0000000u128, 1000_0000000u128];
    let (_, full_range_liquidity) = m.deposit_position(USER, -887260, 887260, desired, 0).unwrap();
    m.swap(USER, 0, 1, 2_0462601, 2_0196431).unwrap();
    let (_, position1_liquidity) = m.deposit_position(USER, -100, -20, desired, 0).unwrap();
    let (_, position2_liquidity) = m.deposit_position(USER, -160, 60, desired, 0).unwrap();

    m.withdraw_position(USER, -887260, 887260, full_range_liquidity, [0, 0]).unwrap();
    m.withdraw_position(USER, -100, -20, position1_liquidity, [0, 0]).unwrap();
    m.withdraw_position(USER, -160, 60, position2_liquidity, [0, 0]).unwrap();
}

#[test]
fn test_protocol_fee_zero_percent() {
    let mut m = Market::new();
    m.mint(USER, 500_0000000, 500_0000000);
    m.pool.set_protocol_fee_fraction(0).unwrap();
    assert_eq!(m.pool.protocol_fee_fraction, 0);
    m.deposit_position(USER, -50, 50, [200_0000000, 200_0000000], 0).unwrap();

    let swapper = 3;
    m.mint(swapper, 30_0000000, 0);
    m.swap(swapper, 0, 1, 20_0000000, 0).unwrap();
    assert_eq!(m.pool.protocol_fees.token0, 0);

    let (lp_fee0, _) = m.claim_position_fees(USER, -50, 50).unwrap();
    let expected_total_fee = 20_0000000u128 * 30 / 10000;
    let tolerance = expected_total_fee / 100 + 1;
    assert!(lp_fee0.abs_diff(expected_total_fee) <= tolerance, "got {}", lp_fee0);
}

#[test]
fn test_protocol_fee_one_hundred_percent() {
    let mut m = Market::new();
    m.mint(USER, 500_0000000, 500_0000000);
    m.pool.set_protocol_fee_fraction(10_000).unwrap();
    assert_eq!(m.pool.protocol_fee_fraction, 10_000);
    m.deposit_position(USER, -50, 50, [200_0000000, 200_0000000], 0).unwrap();

    let swapper = 3;
    m.mint(swapper, 30_0000000, 0);
    m.swap(swapper, 0, 1, 20_0000000, 0).unwrap();
    let expected_total_fee = 20_0000000u128 * 30 / 10000;
    let tolerance = expected_total_fee / 100 + 1;
    assert!(m.pool.protocol_fees.token0.abs_diff(expected_total_fee) <= tolerance);

    let (lp_fee0, lp_fee1) = m.claim_position_fees(USER, -50, 50).unwrap();
    assert_eq!(lp_fee0, 0);
    assert_eq!(lp_fee1, 0);
}

#[test]
fn test_bitmap_word_boundary_crossing() {
    let mut m = Market::with(30, 10);
    m.mint(USER, 1_000_0000000, 1_000_0000000);
    m.deposit_position(USER, -10, 10, [100, 100], 0).unwrap();
    let (_, liq_pos) = m.deposit_position(USER, 10, 50, [50_0000000, 0], 0).unwrap();
    assert!(liq_pos > 0);
    let (_, liq_neg) = m.deposit_position(USER, -50, -10, [0, 50_0000000], 0).unwrap();
    assert!(liq_neg > 0);

    assert!(!m.chunk_bitmap_is_zero(0));
    assert!(!m.chunk_bitmap_is_zero(-1));

    let swapper = 3;
    m.mint(swapper, 0, 100_0000000);
    assert!(m.swap(swapper, 1, 0, 30_0000000, 0).unwrap() > 0);
    assert!(m.pool.slot0.tick >= 10, "tick={}", m.pool.slot0.tick);

    m.mint(swapper, 100_0000000, 0);
    assert!(m.swap(swapper, 0, 1, 80_0000000, 0).unwrap() > 0);
    assert!(m.pool.slot0.tick < -10, "tick={}", m.pool.slot0.tick);
}

#[test]
fn test_two_users_same_tick_range_fee_tracking() {
    let mut m = Market::new();
    let user2 = 2;
    m.mint(USER, 500_0000000, 500_0000000);
    m.mint(user2, 500_0000000, 500_0000000);
    let (_, liq1) = m.deposit_position(USER, -30, 30, [100_0000000, 100_0000000], 0).unwrap();
    let (_, liq2) = m.deposit_position(user2, -30, 30, [100_0000000, 100_0000000], 0).unwrap();
    assert!(liq1 > 0 && liq2 > 0);
    assert_eq!(liq1, liq2);
    assert_eq!(m.get_tick(-30).liquidity_gross, liq1 + liq2);

    let swapper = 3;
    m.mint(swapper, 30_0000000, 0);
    m.swap(swapper, 0, 1, 10_0000000, 0).unwrap();
    let (u1_fee0, u1_fee1) = m.claim_position_fees(USER, -30, 30).unwrap();
    let (u2_fee0, u2_fee1) = m.claim_position_fees(user2, -30, 30).unwrap();
    assert_eq!(u1_fee0, u2_fee0);
    assert_eq!(u1_fee1, u2_fee1);

    m.withdraw_position(USER, -30, 30, liq1, [0, 0]).unwrap();
    assert_eq!(m.get_position(user2, -30, 30).unwrap().liquidity, liq2);
    assert_eq!(m.get_tick(-30).liquidity_gross, liq2);

    m.mint(swapper, 30_0000000, 0);
    m.swap(swapper, 0, 1, 10_0000000, 0).unwrap();
    let (u2_fee0_2, _) = m.claim_position_fees(user2, -30, 30).unwrap();
    assert!(u2_fee0_2 > 0);
}

#[test]
fn test_deposit_position_auto_init_both_tokens_used() {
    // Ratio 200 / 100 gives price 2.0, tick about 6931, inside [6000, 8000).
    let mut m = Market::new();
    m.mint(USER, 100_0000000, 200_0000000);
    let (actual, liq) = m.deposit_position(USER, 6000, 8000, [100_0000000, 200_0000000], 0).unwrap();
    assert!(liq > 0);
    assert!(actual[0] > 0);
    assert!(actual[1] > 0);
    assert_eq!(m.balance(USER, 0) as u128, 100_0000000 - actual[0]);
    assert_eq!(m.balance(USER, 1) as u128, 200_0000000 - actual[1]);
}

#[test]
fn test_deposit_position_auto_init_tick_out_of_range() {
    // Tick about 6931 lies outside [-60, 60).
    let mut m = Market::new();
    m.mint(USER, 100_0000000, 200_0000000);
    let r = m.deposit_position(USER, -60, 60, [100_0000000, 200_0000000], 0);
    assert_eq!(r, Err(pool_err(ConcentratedPoolError::TickOutOfBounds)));
    assert_eq!(ConcentratedPoolError::TickOutOfBounds.code(), 2107);
}

#[test]
fn test_deposit_position_refund_excess() {
    let mut m = Market::new();
    m.mint(USER, 500_0000000, 500_0000000);
    m.deposit_position(USER, -100, 100, [100_0000000, 100_0000000], 0).unwrap();
    let bal0_before = m.balance(USER, 0) as u128;
    let bal1_before = m.balance(USER, 1) as u128;

    let (actual, liq) = m.deposit_position(USER, -50, 50, [200_0000000, 100_0000000], 0).unwrap();
    assert!(liq > 0);
    assert_eq!(bal0_before - m.balance(USER, 0) as u128, actual[0]);
    assert_eq!(bal1_before - m.balance(USER, 1) as u128, actual[1]);
    assert!(actual[0] < 200_0000000 || actual[1] < 100_0000000);
}

#[test]
fn test_withdraw_below_min_amounts() {
    let mut m = Market::new();
    m.mint(USER, 100_0000000, 100_0000000);
    let (_, shares) = m.deposit(USER, [50_0000000, 50_0000000], 0).unwrap();
    let r = m.withdraw(USER, shares, [u128::MAX, u128::MAX]);
    assert_eq!(r, Err(validation_err(LiquidityPoolValidationError::OutMinNotSatisfied)));
}

#[test]
fn claim_without_fees_pays_nothing() {
    let mut m = Market::new();
    m.mint(USER, 1_000_0000000, 1_000_0000000);
    m.deposit_position(USER, -100, 100, [500_0000000, 500_0000000], 0).unwrap();
    assert_eq!(m.claim_position_fees(USER, -100, 100), Ok((0, 0)));
}

#[test]
fn unbrick_moves_price_below_liquidity_up_to_it() {
    let mut m = Market::new();
    m.mint(USER, 1_000_0000000, 1_000_0000000);
    m.deposit_position(USER, -100, 100, [500_0000000, 500_0000000], 0).unwrap();
    let liquidity = m.pool.liquidity;
    // The price sits below every initialized tick: it moves to one tick below the lowest.
    m.pool.slot0.tick = -5_000;
    m.pool.unbrick_pool(-100, 100).unwrap();
    assert_eq!(m.pool.slot0.tick, -101);
    assert_eq!(m.pool.slot0.sqrt_price_x96, sqrt_ratio_at_tick(-101).unwrap());
    assert_eq!(m.pool.liquidity, liquidity);
}

#[test]
fn unbrick_moves_price_above_liquidity_down_to_it() {
    let mut m = Market::new();
    m.pool.slot0.tick = 2_000;
    m.pool.unbrick_pool(-100, 100).unwrap();
    assert_eq!(m.pool.slot0.tick, 100);
    assert_eq!(m.pool.slot0.sqrt_price_x96, sqrt_ratio_at_tick(100).unwrap());
}

#[test]
fn unbrick_leaves_priced_or_empty_pool() {
    let mut m = Market::new();
    m.pool.slot0.tick = 50;
    let before = m.pool.slot0;
    m.pool.unbrick_pool(-100, 100).unwrap();
    assert_eq!(m.pool.slot0, before);
    // Inverted bounds: no liquidity, nothing to move to.
    m.pool.slot0.tick = 5_000;
    let before = m.pool.slot0;
    m.pool.unbrick_pool(1, 0).unwrap();
    assert_eq!(m.pool.slot0, before);
}

#[test]
fn unbrick_clamps_to_tick_bounds() {
    let mut m = Market::new();
    m.pool.slot0.tick = -887272;
    m.pool.unbrick_pool(-887272 + 1, 0).unwrap();
    assert_eq!(m.pool.slot0.tick, -887272);
    let mut m = Market::new();
    m.pool.slot0.tick = i32::MIN;
    assert_eq!(m.pool.unbrick_pool(i32::MAX, i32::MAX), Err(ConcentratedPoolError::TickOutOfBounds));
}

#[test]
fn pool_data_of_a_full_range_pool_has_empty_ladders() {
    let mut m = Market::new();
    m.mint(USER, 1_000_0000000, 1_000_0000000);
    m.deposit(USER, [500_0000000, 500_0000000], 0).unwrap();
    let steps = concentrated_pool::plane::exact_tick_steps_for_spacing(1);
    let (args, reserves) = m.pool.get_pool_data().unwrap();
    assert_eq!(args, vec![1, 30, 1, steps as u128]);
    assert_eq!(reserves.len(), 4 + 4 * steps as usize);
    assert_eq!(reserves[0], m.pool.reserve0);
    assert_eq!(reserves[1], m.pool.reserve1);
    // The full-range reserves are the deposit rounded down instead of up.
    assert!(reserves[2] <= reserves[0] && reserves[0] - reserves[2] <= 1);
    assert!(reserves[3] <= reserves[1] && reserves[1] - reserves[3] <= 1);
    // All active liquidity is full-range, so the ladders over the rest are empty.
    assert!(reserves[4..].iter().all(|&x| x == 0));
}

#[test]
fn pool_data_ladder_steps_follow_the_position() {
    let mut m = Market::new();
    m.mint(USER, 1_000_0000000, 1_000_0000000);
    m.deposit_position(USER, -100, 100, [500_0000000, 500_0000000], 0).unwrap();
    assert_eq!(m.pool.slot0.tick, 0);
    let liquidity = m.pool.liquidity;
    let steps = concentrated_pool::plane::exact_tick_steps_for_spacing(1) as usize;
    let (_, reserves) = m.pool.get_pool_data().unwrap();
    assert_eq!(reserves[2], 0);
    assert_eq!(reserves[3], 0);
    let down = &reserves[4..4 + 2 * steps];
    let up = &reserves[4 + 2 * steps..];
    // First step toward token1: from the current price down to tick -1.
    let cur = m.pool.slot0.sqrt_price_x96;
    let s_m1 = sqrt_ratio_at_tick(-1).unwrap();
    assert_eq!(down[0], amount0_delta(&s_m1, &cur, liquidity, true).unwrap());
    assert_eq!(down[1], amount1_delta(&s_m1, &cur, liquidity, false));
    // Second step: from tick -1 to tick -3.
    let s_m3 = sqrt_ratio_at_tick(-3).unwrap();
    assert_eq!(down[2], amount0_delta(&s_m3, &s_m1, liquidity, true).unwrap());
    assert_eq!(down[3], amount1_delta(&s_m3, &s_m1, liquidity, false));
    // First step toward token0: from the current price up past one boundary, to tick 2.
    let s_2 = sqrt_ratio_at_tick(2).unwrap();
    assert_eq!(up[0], amount1_delta(&cur, &s_2, liquidity, true));
    assert_eq!(up[1], amount0_delta(&cur, &s_2, liquidity, false).unwrap());
    // Past the position's lower tick (-100, reached within the step ending at -105) the
    // liquidity is gone: that step stops at -100 and the later ones are empty.
    let s_m91 = sqrt_ratio_at_tick(-91).unwrap();
    let s_m100 = sqrt_ratio_at_tick(-100).unwrap();
    assert_eq!(down[26], amount0_delta(&s_m100, &s_m91, liquidity, true).unwrap());
    assert_eq!(down[27], amount1_delta(&s_m100, &s_m91, liquidity, false));
    assert!(down[28..].iter().all(|&x| x == 0));
}

/// A market funded and seeded with a full-range deposit, as the error-handling tests start.
fn seeded_market() -> Market {
    let mut m = Market::new();
    m.mint(USER, 100_0000000, 100_0000000);
    m.deposit(USER, [50_0000000, 50_0000000], 0).unwrap();
    m
}

/// Fails the way the contract reports an error.
fn raise(e: ContractError) -> ! {
    panic!("Error(Contract, #{})", e.code())
}

#[test]
#[should_panic(expected = "Error(Contract, #2007)")]
fn test_swap_same_token_index() {
    let mut m = seeded_market();
    let before = (m.balance(USER, 0), m.balance(USER, 1));
    let r = m.swap(USER, 0, 0, 1_0000000, 0);
    assert_eq!(r, Err(validation_err(LiquidityPoolValidationError::CannotSwapSameToken)));
    assert_eq!((m.balance(USER, 0), m.balance(USER, 1)), before);
    raise(r.unwrap_err());
}

#[test]
#[should_panic(expected = "Error(Contract, #2008)")]
fn test_swap_out_of_range_index() {
    let mut m = seeded_market();
    let r = m.swap(USER, 2, 0, 1_0000000, 0);
    assert_eq!(r, Err(validation_err(LiquidityPoolValidationError::TokenIndexOutOfBounds)));
    raise(r.unwrap_err());
}

#[test]
#[should_panic(expected = "Error(Contract, #2006)")]
fn test_swap_output_below_minimum() {
    let mut m = seeded_market();
    let before = (m.balance(USER, 0), m.balance(USER, 1));
    let r = m.swap(USER, 0, 1, 1_0000000, u128::MAX);
    assert_eq!(r, Err(validation_err(LiquidityPoolValidationError::OutMinNotSatisfied)));
    assert_eq!((m.balance(USER, 0), m.balance(USER, 1)), before);
    raise(r.unwrap_err());
}

#[test]
#[should_panic(expected = "Error(Contract, #2020)")]
fn test_swap_strict_receive_input_above_max() {
    let mut m = seeded_market();
    let r = m.swap_strict_receive(USER, 0, 1, 1_0000000, 1);
    assert_eq!(r, Err(validation_err(LiquidityPoolValidationError::InMaxNotSatisfied)));
    raise(r.unwrap_err());
}

#[test]
#[should_panic(expected = "Error(Contract, #2001)")]
fn test_deposit_wrong_amounts_length() {
    let mut m = Market::new();
    m.mint(USER, 100_0000000, 100_0000000);
    let (lower, upper) = m.full_range();
    let existing = m.positions.get(&(USER, lower, upper)).copied();
    m.user_state(USER);
    let state = m.users.get_mut(&USER).unwrap();
    let r = m.pool.deposit(existing, state, &vec![50_0000000u128], 0);
    assert!(matches!(r, Err(ContractError::Validation(LiquidityPoolValidationError::WrongInputVecSize))));
    raise(r.unwrap_err());
}

#[test]
#[should_panic(expected = "Error(Contract, #2001)")]
fn test_withdraw_wrong_min_amounts_length() {
    let mut m = seeded_market();
    let (lower, upper) = m.full_range();
    let existing = m.positions.get(&(USER, lower, upper)).copied();
    let state = m.users.get_mut(&USER).unwrap();
    let r = m.pool.withdraw(existing, state, 100, &vec![0u128]);
    assert!(matches!(r, Err(ContractError::Validation(LiquidityPoolValidationError::WrongInputVecSize))));
    raise(r.unwrap_err());
}

#[test]
#[should_panic(expected = "Error(Contract, #2006)")]
fn test_deposit_min_shares_not_met() {
    let mut m = Market::new();
    m.mint(USER, 100_0000000, 100_0000000);
    let r = m.deposit(USER, [1_0000000, 1_0000000], u128::MAX);
    assert_eq!(r, Err(validation_err(LiquidityPoolValidationError::OutMinNotSatisfied)));
    assert_eq!((m.balance(USER, 0), m.balance(USER, 1)), (100_0000000, 100_0000000));
    raise(r.unwrap_err());
}

#[test]
fn initialize_refuses_a_fee_of_the_whole_denominator() {
    assert!(matches!(
        ConcentratedLiquidityPool::initialize(10_000, 1),
        Err(ContractError::Pool(ConcentratedPoolError::InvalidFee))
    ));
    assert!(matches!(
        ConcentratedLiquidityPool::initialize(30, 0),
        Err(ContractError::Pool(ConcentratedPoolError::InvalidTickSpacing))
    ));
    assert_eq!(ContractError::Pool(ConcentratedPoolError::InvalidFee).code(), 2102);
    assert!(ConcentratedLiquidityPool::initialize(9_999, 1).is_ok());
}

#[test]
fn tick_from_amounts_follows_the_amount_ratio() {
    assert_eq!(ConcentratedLiquidityPool::tick_from_amounts(1_000, 1_000), Ok(0));
    assert_eq!(ConcentratedLiquidityPool::tick_from_amounts(0, 1_000), Err(ConcentratedPoolError::InvalidAmount));
    assert_eq!(ConcentratedLiquidityPool::tick_from_amounts(1_000, 0), Err(ConcentratedPoolError::InvalidAmount));
    // A ratio of 4 is two ticks short of the price at tick 13_863 (1.0001^13_863 ~ 4.0).
    let t = ConcentratedLiquidityPool::tick_from_amounts(1, 4).unwrap();
    assert!((13_860..=13_863).contains(&t));
    assert_eq!(
        ConcentratedLiquidityPool::tick_from_amounts(1, u128::MAX),
        Err(ConcentratedPoolError::PriceOutOfBounds)
    );
}

/// A pool of spacing 10 holding a full-range position and a second one on `[lower, upper)`.
fn market_with_two_positions(lower: i32, upper: i32, amounts: [u128; 2]) -> Market {
    let mut m = Market::with(30, 10);
    m.mint(USER, 2_000_0000000, 2_000_0000000);
    m.deposit_position(USER, -887_270, 887_270, [1_000_0000000, 1_000_0000000], 0).unwrap();
    m.deposit_position(USER, lower, upper, amounts, 0).unwrap();
    m
}

#[test]
fn test_plane_find_tick_across_chunk_bitmap_word_boundary_lte() {
    let m = market_with_two_positions(-20, -10, [0, 100_0000000]);
    let expected = m.pool.ticks.get_tick(-10, 10).liquidity_net;
    assert_eq!(m.pool.ticks.find_initialized_tick(0, i32::MIN, 10, true), Some((-10, expected)));
    assert_eq!(m.pool.ticks.find_initialized_tick(0, -1, 10, true), Some((-10, expected)));
    assert_eq!(m.pool.ticks.find_initialized_tick(0, 0, 10, true), None);
}

#[test]
fn test_plane_find_tick_across_chunk_bitmap_word_boundary_gte() {
    let m = market_with_two_positions(0, 20, [100_0000000, 100_0000000]);
    let expected = m.pool.ticks.get_tick(0, 10).liquidity_net;
    assert_eq!(m.pool.ticks.find_initialized_tick(-17, i32::MAX, 10, false), Some((0, expected)));
    assert_eq!(m.pool.ticks.find_initialized_tick(-17, 0, 10, false), Some((0, expected)));
    assert_eq!(m.pool.ticks.find_initialized_tick(-17, -1, 10, false), None);
}

#[test]
fn swap_step_never_passes_its_target() {
    let cur = sqrt_ratio_at_tick(0).unwrap();
    let down = sqrt_ratio_at_tick(-10).unwrap();
    let up = sqrt_ratio_at_tick(10).unwrap();
    // A large amount is clamped at the target in either direction.
    let s = ConcentratedLiquidityPool::compute_swap_step(&cur, &down, 1_000_000, u128::MAX / 4, 30, true, true).unwrap();
    assert_eq!(s.sqrt_next, down);
    let s = ConcentratedLiquidityPool::compute_swap_step(&cur, &up, 1_000_000, u128::MAX / 4, 30, false, true).unwrap();
    assert_eq!(s.sqrt_next, up);
    // A small amount stops between the current price and the target.
    let s = ConcentratedLiquidityPool::compute_swap_step(&cur, &down, 1_000_000_000_000, 1_000, 30, true, true).unwrap();
    assert!(down.lt(&s.sqrt_next) && s.sqrt_next.le(&cur));
    // Without liquidity the step jumps to the target and moves nothing, whatever the fee.
    let s = ConcentratedLiquidityPool::compute_swap_step(&cur, &down, 0, 1_000, 20_000, true, true).unwrap();
    assert_eq!((s.sqrt_next, s.amount_in, s.amount_out, s.fee_amount), (down, 0, 0, 0));
}

#[test]
fn swap_step_reaching_its_target_spends_within_the_offer() {
    let cur = sqrt_ratio_at_tick(0).unwrap();
    let down = sqrt_ratio_at_tick(-10).unwrap();
    let offered: u128 = 10_000_000;
    let s = ConcentratedLiquidityPool::compute_swap_step(&cur, &down, 1_000_000_000, offered, 30, true, true).unwrap();
    assert_eq!(s.sqrt_next, down);
    assert!(s.amount_in > 0 && s.fee_amount > 0);
    assert!(s.amount_in + s.fee_amount <= offered);
}

#[test]
fn test_plane_snapshot_full_range_component_updates() {
    let mut m = Market::new();
    m.mint(USER, 5_000_0000000, 5_000_0000000);
    let (_, full_range_liquidity) = m.deposit(USER, [2_000_0000000, 2_000_0000000], 0).unwrap();
    assert!(full_range_liquidity > 0);
    let (_, narrow_liquidity) = m.deposit_position(USER, -100, 100, [1_000_0000000, 1_000_0000000], 0).unwrap();
    assert!(narrow_liquidity > 0);

    let (init_args, reserves) = m.pool.get_pool_data().unwrap();
    assert_eq!(init_args[0], 1);
    assert!(reserves[2] > 0);
    assert!(reserves[3] > 0);

    m.withdraw(USER, full_range_liquidity, [0, 0]).unwrap();
    let (_, reserves_after) = m.pool.get_pool_data().unwrap();
    assert_eq!(reserves_after[2], 0);
    assert_eq!(reserves_after[3], 0);
}

#[test]
fn swap_keeps_pool_balances_and_moves_price_toward_the_limit() {
    let mut m = Market::new();
    m.mint(USER, 1_000_0000000, 1_000_0000000);
    m.deposit(USER, [500_0000000, 500_0000000], 0).unwrap();
    m.pool.protocol_fee_fraction = 5_000;
    for (in_idx, out_idx, amount) in [(0u32, 1u32, 30_0000000u128), (1, 0, 70_0000000), (0, 1, 5_0000000)] {
        let start = m.pool.slot0.sqrt_price_x96;
        let balances = (m.pool_balance(0), m.pool_balance(1));
        let out = m.swap(USER, in_idx, out_idx, amount, 0).unwrap();
        // Balances move by exactly what came in and went out.
        let (in_after, out_after) = (m.pool_balance(in_idx as usize), m.pool_balance(out_idx as usize));
        let (in_before, out_before) = if in_idx == 0 { balances } else { (balances.1, balances.0) };
        assert_eq!(in_after, in_before + amount);
        assert_eq!(out_after, out_before - out);
        // The price moved in the direction of the trade and stays bracketed by its tick.
        let now = m.pool.slot0.sqrt_price_x96;
        if in_idx == 0 {
            assert!(now.le(&start));
        } else {
            assert!(start.le(&now));
        }
        let tick = m.pool.slot0.tick;
        assert!(sqrt_ratio_at_tick(tick).unwrap().le(&now));
        assert!(now.le(&sqrt_ratio_at_tick(tick + 1).unwrap()));
    }
}

#[test]
fn exact_input_step_short_of_its_target_spends_the_offer() {
    let cur = sqrt_ratio_at_tick(0).unwrap();
    let down = sqrt_ratio_at_tick(-10).unwrap();
    let offered: u128 = 1_000;
    let s = ConcentratedLiquidityPool::compute_swap_step(&cur, &down, 1_000_000_000_000, offered, 30, true, true).unwrap();
    assert!(s.sqrt_next != down);
    assert_eq!(s.amount_in + s.fee_amount, offered);
}
