//! Error codes returned by the pool, the calculator and the input validation.

use vstd::prelude::*;

verus! {

/// Errors of the concentrated-liquidity pool.
#[derive(Clone, Copy, Debug, PartialEq, Eq, Structural)]
pub enum ConcentratedPoolError {
    Unauthorized,
    PoolAlreadyInitialized,
    PlaneAlreadyInitialized,
    RewardsAlreadyInitialized,
    DepositKilled,
    SwapKilled,
    ClaimKilled,
    TokensNotSorted,
    InvalidTickRange,
    InvalidFee,
    InvalidAmount,
    InvalidSqrtPrice,
    InvalidTickSpacing,
    TickOutOfBounds,
    PriceOutOfBounds,
    TickNotSpacedCorrectly,
    TickLowerNotLessThanUpper,
    TickLowerTooLow,
    TickUpperTooHigh,
    InvalidPriceLimit,
    PositionNotFound,
    TooManyPositions,
    LiquidityAmountTooLarge,
    InsufficientLiquidity,
    LiquidityOverflow,
    LiquidityUnderflow,
}

/// The numeric contract error code of each pool error.
pub open spec fn spec_pool_error_code(e: ConcentratedPoolError) -> u32 {
    match e {
        ConcentratedPoolError::Unauthorized => 102,
        ConcentratedPoolError::PoolAlreadyInitialized => 201,
        ConcentratedPoolError::PlaneAlreadyInitialized => 202,
        ConcentratedPoolError::RewardsAlreadyInitialized => 203,
        ConcentratedPoolError::DepositKilled => 205,
        ConcentratedPoolError::SwapKilled => 206,
        ConcentratedPoolError::ClaimKilled => 207,
        ConcentratedPoolError::TokensNotSorted => 2002,
        ConcentratedPoolError::InvalidTickRange => 2101,
        ConcentratedPoolError::InvalidFee => 2102,
        ConcentratedPoolError::InvalidAmount => 2103,
        ConcentratedPoolError::InvalidSqrtPrice => 2104,
        ConcentratedPoolError::InvalidTickSpacing => 2106,
        ConcentratedPoolError::TickOutOfBounds => 2107,
        ConcentratedPoolError::PriceOutOfBounds => 2108,
        ConcentratedPoolError::TickNotSpacedCorrectly => 2109,
        ConcentratedPoolError::TickLowerNotLessThanUpper => 2110,
        ConcentratedPoolError::TickLowerTooLow => 2111,
        ConcentratedPoolError::TickUpperTooHigh => 2112,
        ConcentratedPoolError::InvalidPriceLimit => 2113,
        ConcentratedPoolError::PositionNotFound => 2118,
        ConcentratedPoolError::TooManyPositions => 2119,
        ConcentratedPoolError::LiquidityAmountTooLarge => 2120,
        ConcentratedPoolError::InsufficientLiquidity => 2121,
        ConcentratedPoolError::LiquidityOverflow => 2122,
        ConcentratedPoolError::LiquidityUnderflow => 2123,
    }
}

impl ConcentratedPoolError {
    /// The numeric contract error code (see `spec_pool_error_code`).
    pub fn code(&self) -> (r: u32)
        ensures
            r == spec_pool_error_code(*self),
    {
        match self {
            ConcentratedPoolError::Unauthorized => 102,
            ConcentratedPoolError::PoolAlreadyInitialized => 201,
            ConcentratedPoolError::PlaneAlreadyInitialized => 202,
            ConcentratedPoolError::RewardsAlreadyInitialized => 203,
            ConcentratedPoolError::DepositKilled => 205,
            ConcentratedPoolError::SwapKilled => 206,
            ConcentratedPoolError::ClaimKilled => 207,
            ConcentratedPoolError::TokensNotSorted => 2002,
            ConcentratedPoolError::InvalidTickRange => 2101,
            ConcentratedPoolError::InvalidFee => 2102,
            ConcentratedPoolError::InvalidAmount => 2103,
            ConcentratedPoolError::InvalidSqrtPrice => 2104,
            ConcentratedPoolError::InvalidTickSpacing => 2106,
            ConcentratedPoolError::TickOutOfBounds => 2107,
            ConcentratedPoolError::PriceOutOfBounds => 2108,
            ConcentratedPoolError::TickNotSpacedCorrectly => 2109,
            ConcentratedPoolError::TickLowerNotLessThanUpper => 2110,
            ConcentratedPoolError::TickLowerTooLow => 2111,
            ConcentratedPoolError::TickUpperTooHigh => 2112,
            ConcentratedPoolError::InvalidPriceLimit => 2113,
            ConcentratedPoolError::PositionNotFound => 2118,
            ConcentratedPoolError::TooManyPositions => 2119,
            ConcentratedPoolError::LiquidityAmountTooLarge => 2120,
            ConcentratedPoolError::InsufficientLiquidity => 2121,
            ConcentratedPoolError::LiquidityOverflow => 2122,
            ConcentratedPoolError::LiquidityUnderflow => 2123,
        }
    }
}

/// Errors of the liquidity calculator.
#[derive(Clone, Copy, Debug, PartialEq, Eq, Structural)]
pub enum LiquidityPoolCalculatorError {
    /// The iterative solution did not converge.
    MaxIterationsReached,
}

impl LiquidityPoolCalculatorError {
    /// The numeric contract error code.
    pub fn code(&self) -> (r: u32)
        ensures
            r == 209,
    {
        match self {
            LiquidityPoolCalculatorError::MaxIterationsReached => 209,
        }
    }
}

/// Rejections of malformed user input shared by the liquidity pools.
#[derive(Clone, Copy, Debug, PartialEq, Eq, Structural)]
pub enum LiquidityPoolValidationError {
    WrongInputVecSize,
    ZeroAmount,
    AllCoinsRequired,
    OutMinNotSatisfied,
    InsufficientBalance,
    FeeOutOfBounds,
    CannotSwapSameToken,
    TokenIndexOutOfBounds,
    InMaxNotSatisfied,
}

/// The numeric contract error code of each input rejection.
pub open spec fn spec_validation_error_code(e: LiquidityPoolValidationError) -> u32 {
    match e {
        LiquidityPoolValidationError::WrongInputVecSize => 2001,
        LiquidityPoolValidationError::FeeOutOfBounds => 2003,
        LiquidityPoolValidationError::OutMinNotSatisfied => 2006,
        LiquidityPoolValidationError::CannotSwapSameToken => 2007,
        LiquidityPoolValidationError::TokenIndexOutOfBounds => 2008,
        LiquidityPoolValidationError::InsufficientBalance => 2016,
        LiquidityPoolValidationError::AllCoinsRequired => 2017,
        LiquidityPoolValidationError::ZeroAmount => 2018,
        LiquidityPoolValidationError::InMaxNotSatisfied => 2020,
    }
}

impl LiquidityPoolValidationError {
    /// The numeric contract error code (see `spec_validation_error_code`).
    pub fn code(&self) -> (r: u32)
        ensures
            r == spec_validation_error_code(*self),
    {
        match self {
            LiquidityPoolValidationError::WrongInputVecSize => 2001,
            LiquidityPoolValidationError::FeeOutOfBounds => 2003,
            LiquidityPoolValidationError::OutMinNotSatisfied => 2006,
            LiquidityPoolValidationError::CannotSwapSameToken => 2007,
            LiquidityPoolValidationError::TokenIndexOutOfBounds => 2008,
            LiquidityPoolValidationError::InsufficientBalance => 2016,
            LiquidityPoolValidationError::AllCoinsRequired => 2017,
            LiquidityPoolValidationError::ZeroAmount => 2018,
            LiquidityPoolValidationError::InMaxNotSatisfied => 2020,
        }
    }
}

/// An error of a pool operation: a pool error or a rejected input.
#[derive(Clone, Copy, Debug, PartialEq, Eq, Structural)]
pub enum ContractError {
    Pool(ConcentratedPoolError),
    Validation(LiquidityPoolValidationError),
}

impl ContractError {
    /// The numeric contract error code of the pool error or the input rejection.
    pub fn code(&self) -> (r: u32)
        ensures
            r == match *self {
                ContractError::Pool(e) => spec_pool_error_code(e),
                ContractError::Validation(e) => spec_validation_error_code(e),
            },
    {
        match self {
            ContractError::Pool(e) => e.code(),
            ContractError::Validation(e) => e.code(),
        }
    }
}

} // verus!
