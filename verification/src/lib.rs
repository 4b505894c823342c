//! Verified arithmetic and state transitions of a concentrated-liquidity pool.

pub mod constants;
pub mod errors;
pub mod u256;
pub mod u512;
pub mod fixed_point;
pub mod math;
pub mod tick_math;
pub mod bitmap;
pub mod types;
pub mod ticks;
pub mod pool;
pub mod swap;
pub mod positions;
pub mod claims;
pub mod weighting;
pub mod plane;
pub mod plane_data;
pub mod calculator;
pub mod stableswap;
pub mod laws;
