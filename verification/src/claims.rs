//! Fees across all of a user's positions: the total owed now, and claiming it at once.

use vstd::prelude::*;

verus! {

use crate::errors::ConcentratedPoolError as Error;
use crate::errors::{ContractError, LiquidityPoolValidationError as ValidationError};
use crate::pool::ConcentratedLiquidityPool;
use crate::positions::{sat_add, spec_accrued, spec_fee_growth_inside, UserState};
use crate::types::{PositionData, PositionRange};

/// What a position owes once its fees are brought up to date at the pool's tick; a position
/// whose update does not fit keeps its recorded owed amounts.
pub open spec fn spec_owed_now(pool: ConcentratedLiquidityPool, pos: PositionData, range: PositionRange) -> (nat, nat) {
    let (i0, i1) = spec_fee_growth_inside(pool, range.tick_lower as int, range.tick_upper as int, pool.slot0.tick as int);
    match spec_accrued(pos, i0, i1) {
        Ok((o0, o1)) => (o0, o1),
        Err(_) => (pos.tokens_owed_0 as nat, pos.tokens_owed_1 as nat),
    }
}

/// The owed amounts summed, saturating, over the first `n` ranges that hold a stored position.
pub open spec fn spec_total_owed(pool: ConcentratedLiquidityPool, ranges: Seq<PositionRange>,
    stored: Seq<Option<PositionData>>, n: nat) -> (nat, nat)
    decreases n,
{
    if n == 0 {
        (0, 0)
    } else {
        let (t0, t1) = spec_total_owed(pool, ranges, stored, (n - 1) as nat);
        match stored[n - 1] {
            Some(p) => {
                let (o0, o1) = spec_owed_now(pool, p, ranges[n - 1]);
                (sat_add(t0, o0), sat_add(t1, o1))
            },
            None => (t0, t1),
        }
    }
}

/// Whether claiming leaves no position at index `i`: there was none, or it held no liquidity.
pub open spec fn spec_claim_removes(stored: Seq<Option<PositionData>>, i: int) -> bool {
    match stored[i] {
        Some(p) => p.liquidity == 0,
        None => false,
    }
}

/// Whether a range is kept among the user's positions: no emptied position has it.
pub open spec fn keep_range(ranges: Seq<PositionRange>, stored: Seq<Option<PositionData>>) -> spec_fn(PositionRange) -> bool {
    |r: PositionRange| !exists|i: int| 0 <= i < stored.len() && #[trigger] spec_claim_removes(stored, i) && ranges[i] == r
}

/// The stored position `after` is what claiming leaves of `before` over `range`: nothing for an
/// empty position, otherwise the same liquidity with nothing owed and, when the update fits,
/// the fee snapshot moved to the current growth.
pub open spec fn spec_claimed(pool: ConcentratedLiquidityPool, before: Option<PositionData>, range: PositionRange,
    after: Option<PositionData>) -> bool {
    match before {
        None => after is None,
        Some(p) => if p.liquidity == 0 {
            after is None
        } else {
            let (i0, i1) = spec_fee_growth_inside(pool, range.tick_lower as int, range.tick_upper as int, pool.slot0.tick as int);
            &&& after matches Some(q)
            &&& q.liquidity == p.liquidity && q.tokens_owed_0 == 0 && q.tokens_owed_1 == 0
            &&& (spec_accrued(p, i0, i1) is Ok ==> q.fee_growth_inside_0_last_x128@ == i0 && q.fee_growth_inside_1_last_x128@ == i1)
            &&& (spec_accrued(p, i0, i1) is Err ==> q.fee_growth_inside_0_last_x128 == p.fee_growth_inside_0_last_x128
                && q.fee_growth_inside_1_last_x128 == p.fee_growth_inside_1_last_x128)
        },
    }
}

impl ConcentratedLiquidityPool {
    /// A stored position with its fees brought up to date when the update fits.
    fn position_owed_now(&self, pos: PositionData, range: PositionRange) -> (r: PositionData)
        requires
            self.tick_spacing > 0,
        ensures
            (r.tokens_owed_0 as nat, r.tokens_owed_1 as nat) == spec_owed_now(*self, pos, range),
            r.liquidity == pos.liquidity,
            ({
                let (i0, i1) = spec_fee_growth_inside(*self, range.tick_lower as int, range.tick_upper as int, self.slot0.tick as int);
                &&& spec_accrued(pos, i0, i1) is Ok ==> r.fee_growth_inside_0_last_x128@ == i0 && r.fee_growth_inside_1_last_x128@ == i1
                &&& spec_accrued(pos, i0, i1) is Err ==> r == pos
            }),
    {
        let mut position = pos;
        let _ = self.accrue_position_fees(&mut position, range.tick_lower, range.tick_upper, self.slot0.tick);
        position
    }

    /// The fees the user could claim now over all their ranges; `stored[i]` is the position
    /// stored for `user.positions[i]`, if any.
    pub fn get_all_position_fees(&self, user: &UserState, stored: &Vec<Option<PositionData>>) -> (r: (u128, u128))
        requires
            self.wf(),
            stored@.len() == user.positions@.len(),
        ensures
            (r.0 as nat, r.1 as nat) == spec_total_owed(*self, user.positions@, stored@, stored@.len()),
    {
        let mut total0: u128 = 0;
        let mut total1: u128 = 0;
        let mut i: usize = 0;
        while i < stored.len()
            invariant
                self.wf(),
                stored@.len() == user.positions@.len(),
                0 <= i <= stored@.len(),
                (total0 as nat, total1 as nat) == spec_total_owed(*self, user.positions@, stored@, i as nat),
            decreases stored@.len() - i,
        {
            if let Some(pos) = stored[i] {
                let range = user.positions[i];
                let p = self.position_owed_now(pos, range);
                total0 = total0.saturating_add(p.tokens_owed_0);
                total1 = total1.saturating_add(p.tokens_owed_1);
            }
            i = i + 1;
        }
        (total0, total1)
    }

    /// Claims the fees of all the user's ranges at once (`stored[i]` is the position stored
    /// for `user.positions[i]`): pays out the total owed, zeroes what each position owes,
    /// drops positions without liquidity together with their ranges, and returns the totals
    /// and what is left stored for each range. `InsufficientBalance`, with nothing changed,
    /// when a total exceeds its reserve.
    pub fn claim_all_position_fees(&mut self, user: &mut UserState, stored: &Vec<Option<PositionData>>)
        -> (r: Result<(u128, u128, Vec<Option<PositionData>>), ContractError>)
        requires
            old(self).wf(),
            stored@.len() == old(user).positions@.len(),
        ensures
            ({
                let (t0, t1) = spec_total_owed(*old(self), old(user).positions@, stored@, stored@.len());
                &&& (t0 > old(self).reserve0 || t1 > old(self).reserve1) ==> r == Err::<(u128, u128, Vec<Option<PositionData>>), ContractError>(
                        ContractError::Validation(ValidationError::InsufficientBalance))
                        && *final(self) == *old(self) && *final(user) == *old(user)
                &&& (t0 <= old(self).reserve0 && t1 <= old(self).reserve1) ==> (r matches Ok((c0, c1, left)) && {
                    &&& c0 == t0 && c1 == t1
                    &&& *final(self) == (ConcentratedLiquidityPool {
                        reserve0: (old(self).reserve0 - c0) as u128, reserve1: (old(self).reserve1 - c1) as u128, ..*old(self) })
                    &&& left@.len() == stored@.len()
                    &&& forall|i: int| 0 <= i < stored@.len() ==> spec_claimed(*old(self), #[trigger] stored@[i], old(user).positions@[i], left@[i])
                    &&& final(user).positions@ == old(user).positions@.filter(keep_range(old(user).positions@, stored@))
                    &&& final(user).raw_liquidity == old(user).raw_liquidity
                    &&& final(user).weighted_liquidity == old(user).weighted_liquidity
                })
            }),
    {
        let n = stored.len();
        let mut total0: u128 = 0;
        let mut total1: u128 = 0;
        let mut left: Vec<Option<PositionData>> = Vec::new();
        let mut i: usize = 0;
        while i < n
            invariant
                self.wf(),
                *self == *old(self),
                *user == *old(user),
                n == stored@.len(),
                stored@.len() == user.positions@.len(),
                0 <= i <= n,
                left@.len() == i,
                (total0 as nat, total1 as nat) == spec_total_owed(*self, user.positions@, stored@, i as nat),
                forall|j: int| 0 <= j < i ==> spec_claimed(*self, #[trigger] stored@[j], user.positions@[j], left@[j]),
            decreases n - i,
        {
            match stored[i] {
                Some(pos) => {
                    let range = user.positions[i];
                    let mut p = self.position_owed_now(pos, range);
                    total0 = total0.saturating_add(p.tokens_owed_0);
                    total1 = total1.saturating_add(p.tokens_owed_1);
                    if p.liquidity == 0 {
                        left.push(None);
                    } else {
                        p.tokens_owed_0 = 0;
                        p.tokens_owed_1 = 0;
                        left.push(Some(p));
                    }
                },
                None => {
                    left.push(None);
                },
            }
            i = i + 1;
        }
        if self.reserve0 < total0 || self.reserve1 < total1 {
            return Err(ContractError::Validation(ValidationError::InsufficientBalance));
        }
        let ghost ranges = user.positions@;
        let ghost keep = keep_range(ranges, stored@);
        let mut kept: Vec<PositionRange> = Vec::new();
        let mut j: usize = 0;
        while j < user.positions.len()
            invariant
                *user == *old(user),
                ranges == user.positions@,
                keep == keep_range(ranges, stored@),
                n == stored@.len(),
                stored@.len() == ranges.len(),
                0 <= j <= ranges.len(),
                kept@ == ranges.take(j as int).filter(keep),
            decreases ranges.len() - j,
        {
            let r = user.positions[j];
            let mut removed = false;
            let mut k: usize = 0;
            while k < n
                invariant
                    n == stored@.len(),
                    ranges == user.positions@,
                    stored@.len() == ranges.len(),
                    0 <= k <= n,
                    removed == exists|m: int| 0 <= m < k && #[trigger] spec_claim_removes(stored@, m) && ranges[m] == r,
                decreases n - k,
            {
                let gone = match stored[k] {
                    Some(p) => p.liquidity == 0,
                    None => false,
                };
                if gone && user.positions[k].tick_lower == r.tick_lower && user.positions[k].tick_upper == r.tick_upper {
                    proof {
                        assert(spec_claim_removes(stored@, k as int) && ranges[k as int] == r);
                    }
                    removed = true;
                }
                proof {
                    if removed && !(exists|m: int| 0 <= m < k && #[trigger] spec_claim_removes(stored@, m) && ranges[m] == r) {
                        assert(spec_claim_removes(stored@, k as int) && ranges[k as int] == r);
                    }
                    if !removed {
                        assert(!(spec_claim_removes(stored@, k as int) && ranges[k as int] == r));
                    }
                }
                k = k + 1;
            }
            proof {
                assert(ranges.take(j as int + 1) == ranges.take(j as int).push(r));
                ranges.take(j as int).lemma_filter_push(r, keep);
                assert(keep(r) == !removed);
            }
            if !removed {
                kept.push(r);
            }
            j = j + 1;
        }
        proof {
            assert(ranges.take(ranges.len() as int) == ranges);
        }
        user.positions = kept;
        self.reserve0 = self.reserve0 - total0;
        self.reserve1 = self.reserve1 - total1;
        Ok((total0, total1, left))
    }
}

} // verus!
