//! Reward weighting of a user's liquidity: which liquidity each of the user's ranges counts
//! with, the weighted total, and the pool-wide total kept in step with it. The weight of one
//! range (its distance multiplier applied to its liquidity) is supplied by the caller.

use vstd::prelude::*;

verus! {

use crate::positions::{sat_add, sat_sub, UserState};
use crate::types::{PositionData, PositionRange};

/// The liquidity a range counts with: `target_liquidity` for the target range, otherwise the
/// stored position's liquidity (0 without one).
pub open spec fn spec_range_liquidity(range: PositionRange, stored: Option<PositionData>,
    target: PositionRange, target_liquidity: u128) -> u128 {
    if range == target {
        target_liquidity
    } else {
        match stored {
            Some(p) => p.liquidity,
            None => 0,
        }
    }
}

/// The ranges among the first `n` with nonzero counted liquidity, in order, with that liquidity.
pub open spec fn spec_weighting_prefix(ranges: Seq<PositionRange>, stored: Seq<Option<PositionData>>,
    target: PositionRange, target_liquidity: u128, n: nat) -> Seq<(PositionRange, u128)>
    decreases n,
{
    if n == 0 {
        Seq::empty()
    } else {
        let prev = spec_weighting_prefix(ranges, stored, target, target_liquidity, (n - 1) as nat);
        let l = spec_range_liquidity(ranges[n - 1], stored[n - 1], target, target_liquidity);
        if l == 0 { prev } else { prev.push((ranges[n - 1], l)) }
    }
}

/// The entries a user's weighted liquidity sums over: their ranges with nonzero counted
/// liquidity, then the target range with `target_liquidity` when it is new and nonzero.
pub open spec fn spec_weighting_entries(ranges: Seq<PositionRange>, stored: Seq<Option<PositionData>>,
    target: PositionRange, target_liquidity: u128) -> Seq<(PositionRange, u128)> {
    let prefix = spec_weighting_prefix(ranges, stored, target, target_liquidity, ranges.len());
    if !ranges.contains(target) && target_liquidity > 0 { prefix.push((target, target_liquidity)) } else { prefix }
}

/// The saturating sum of the first `n` weights.
pub open spec fn spec_sat_sum(weights: Seq<u128>, n: nat) -> nat
    decreases n,
{
    if n == 0 { 0 } else { sat_add(spec_sat_sum(weights, (n - 1) as nat), weights[n - 1] as nat) }
}

/// The pool-wide weighted total after one user's weighted liquidity moves from `prev` to
/// `next`, saturating at both ends.
pub open spec fn spec_total_after(total: nat, prev: nat, next: nat) -> nat {
    if next >= prev { sat_add(total, (next - prev) as nat) } else { sat_sub(total, (prev - next) as nat) }
}

/// The ranges and liquidity a user's weighted liquidity sums over (see
/// `spec_weighting_entries`); `stored[i]` is the position stored for `user.positions[i]`.
/// A target of liquidity 0 on a range the user does not hold leaves the user's own ranges.
pub fn weighting_entries(user: &UserState, stored: &Vec<Option<PositionData>>, target_tick_lower: i32,
    target_tick_upper: i32, target_liquidity: u128) -> (r: Vec<(PositionRange, u128)>)
    requires
        stored@.len() == user.positions@.len(),
    ensures
        r@ == spec_weighting_entries(user.positions@, stored@,
            PositionRange { tick_lower: target_tick_lower, tick_upper: target_tick_upper }, target_liquidity),
{
    let target = PositionRange { tick_lower: target_tick_lower, tick_upper: target_tick_upper };
    let mut out: Vec<(PositionRange, u128)> = Vec::new();
    let mut applied = false;
    let mut i: usize = 0;
    while i < stored.len()
        invariant
            stored@.len() == user.positions@.len(),
            0 <= i <= stored@.len(),
            target == (PositionRange { tick_lower: target_tick_lower, tick_upper: target_tick_upper }),
            out@ == spec_weighting_prefix(user.positions@, stored@, target, target_liquidity, i as nat),
            applied == user.positions@.take(i as int).contains(target),
        decreases stored@.len() - i,
    {
        let range = user.positions[i];
        let is_target = range.tick_lower == target_tick_lower && range.tick_upper == target_tick_upper;
        let liq = if is_target {
            target_liquidity
        } else {
            match stored[i] {
                Some(p) => p.liquidity,
                None => 0,
            }
        };
        proof {
            assert(user.positions@.take(i as int + 1) == user.positions@.take(i as int).push(range));
            if is_target {
                assert(user.positions@.take(i as int + 1)[i as int] == target);
            }
            if applied {
                let k = choose|k: int| 0 <= k < i && user.positions@.take(i as int)[k] == target;
                assert(user.positions@.take(i as int + 1)[k] == target);
            }
            if !applied && !is_target {
                assert forall|k: int| 0 <= k < i + 1 implies #[trigger] user.positions@.take(i as int + 1)[k] != target by {
                    if k < i {
                        assert(user.positions@.take(i as int + 1)[k] == user.positions@.take(i as int)[k]);
                    }
                }
            }
        }
        if is_target {
            applied = true;
        }
        if liq != 0 {
            out.push((range, liq));
        }
        i = i + 1;
    }
    proof {
        assert(user.positions@.take(stored@.len() as int) == user.positions@);
    }
    if !applied && target_liquidity > 0 {
        out.push((target, target_liquidity));
    }
    out
}

/// The saturating sum of the weights.
pub fn saturating_sum(weights: &Vec<u128>) -> (r: u128)
    ensures
        r as nat == spec_sat_sum(weights@, weights@.len()),
{
    let mut total: u128 = 0;
    let mut i: usize = 0;
    while i < weights.len()
        invariant
            0 <= i <= weights@.len(),
            total as nat == spec_sat_sum(weights@, i as nat),
        decreases weights@.len() - i,
    {
        total = total.saturating_add(weights[i]);
        i = i + 1;
    }
    total
}

/// Records the user's new weighted liquidity and moves the pool-wide total by the change;
/// returns the new total.
pub fn update_weighted_liquidity(state: &mut UserState, total_weighted: u128, weighted: u128) -> (r: u128)
    ensures
        r as nat == spec_total_after(total_weighted as nat, old(state).weighted_liquidity as nat, weighted as nat),
        final(state).weighted_liquidity == weighted,
        final(state).positions == old(state).positions,
        final(state).raw_liquidity == old(state).raw_liquidity,
{
    let prev = state.weighted_liquidity;
    let total = if weighted >= prev {
        total_weighted.saturating_add(weighted - prev)
    } else {
        total_weighted.saturating_sub(prev - weighted)
    };
    state.weighted_liquidity = weighted;
    total
}

} // verus!
