# concentrated_pool

A concentrated-liquidity AMM pool (ticks, positions, swaps, fees), the liquidity snapshot it
publishes to a pool plane, and the liquidity calculator that reads such snapshots, written in
Verus with their behaviour stated as contracts and proved.

## Layout

- `src/` — the verified library.
  - `u256.rs`, `u512.rs`, `math.rs`, `fixed_point.rs`: wide integers, Q64.96 price math,
    fixed-point multiply-divide.
  - `tick_math.rs`, `bitmap.rs`: tick ↔ sqrt price, bit words and tick compression.
  - `ticks.rs`: the tick store (chunks, chunk bitmap, second-level bitmap) and its searches.
  - `pool.rs`, `swap.rs`, `positions.rs`, `claims.rs`, `weighting.rs`: the pool state and its
    operations.
  - `plane.rs`, `plane_data.rs`: the snapshot published to the pool plane.
  - `calculator.rs`, `stableswap.rs`: liquidity estimates from plane snapshots.
  - `laws.rs`: properties relating several operations.
- `tests/` — executable tests of the library.
- `app/` — the Soroban contracts around the library: storage, token transfers, events,
  authorization.

## Scope

Reward distribution (gauges, boosted rewards, the weighted-liquidity bookkeeping that feeds
them), admin roles with ownership transfer, and contract upgrades rely on crates that are not
part of this project's dependencies; the contracts in `app/` leave them out. `src/weighting.rs`
holds the verified per-position weighting that such a rewards module would consume.
