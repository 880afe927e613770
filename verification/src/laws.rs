//! The library's laws: conservation, monotonicity, checkpoint idempotence
//! and migration snapshot stability, proved over the specification functions
//! that the executable operations are verified against.

use vstd::prelude::*;

use crate::dec::{lemma_div_le_self, lemma_div_ordered, lemma_mul_div_bounds, lemma_mul_ordered,
    Dec, DEC_SCALE};
use crate::migration::spec_deprecate;
use crate::rewards::{
    checkpoint_bond_fits, checkpoint_short_fits, distribute_fits, deposit_fits,
    lemma_short_portion_le, spec_accrued, spec_checkpoint_bond, spec_checkpoint_short,
    spec_deposit_pool, spec_distribute, spec_realizable, spec_short_portion,
};
use crate::staking::{spec_bond, spec_unbond};
use crate::state::{
    is_dormant, spec_effective_index, staker_wf, PoolInfo, RewardInfo,
};

verus! {

/// Conservation at a checkpoint: realizing accrued reward moves value from
/// "unrealized" to "pending" without creating or destroying any. What a
/// position can withdraw is exactly the same before and after either
/// checkpoint.
pub proof fn law_checkpoint_conserves_realizable(pool: PoolInfo, s: RewardInfo)
    requires
        staker_wf(pool, s),
        checkpoint_bond_fits(pool, s),
        checkpoint_short_fits(pool, s),
    ensures
        spec_realizable(pool, spec_checkpoint_bond(pool, s)) == spec_realizable(pool, s),
        spec_realizable(pool, spec_checkpoint_short(pool, s)) == spec_realizable(pool, s),
{
    crate::rewards::lemma_accrued_bounds(s.bond_amount, spec_effective_index(pool, s), s.index);
    crate::rewards::lemma_accrued_bounds(s.short_amount, pool.short_reward_index, s.short_index);
}

/// Conservation across a bond: restaking realizes the accrual earned so far
/// and re-bases the position at the current index, so the amount the staker
/// can withdraw is exactly unchanged, and no other position's accrual basis
/// moves (the pool's indices are untouched).
pub proof fn law_bond_conserves_realizable(pool: PoolInfo, s: RewardInfo, amount: u128)
    requires
        staker_wf(pool, s),
        !is_dormant(pool, s),
        crate::staking::bond_fits(pool, s, amount),
        checkpoint_short_fits(pool, s),
    ensures
        spec_realizable(spec_bond(pool, s, amount).0, spec_bond(pool, s, amount).1)
            == spec_realizable(pool, s),
        spec_bond(pool, s, amount).0.reward_index == pool.reward_index,
        spec_bond(pool, s, amount).0.short_reward_index == pool.short_reward_index,
{
    crate::rewards::lemma_accrued_bounds(s.bond_amount, spec_effective_index(pool, s), s.index);
    crate::rewards::lemma_accrued_bounds(s.short_amount, pool.short_reward_index, s.short_index);
    let p2 = spec_bond(pool, s, amount).0;
    let s2 = spec_bond(pool, s, amount).1;
    assert(spec_effective_index(p2, s2) == s2.index);
}

/// Conservation across an unbond: the settled position keeps exactly what it
/// had accrued (a dormant position settles against the frozen snapshot), and
/// the pool's indices are untouched.
pub proof fn law_unbond_conserves_realizable(pool: PoolInfo, s: RewardInfo, amount: u128)
    requires
        staker_wf(pool, s),
        checkpoint_bond_fits(pool, s),
        checkpoint_short_fits(pool, s),
        amount <= s.bond_amount,
        !is_dormant(pool, s) ==> amount <= pool.total_bond_amount,
    ensures
        spec_realizable(spec_unbond(pool, s, amount).0, spec_unbond(pool, s, amount).1)
            == spec_realizable(pool, s),
        spec_unbond(pool, s, amount).0.reward_index == pool.reward_index,
{
    crate::rewards::lemma_accrued_bounds(s.bond_amount, spec_effective_index(pool, s), s.index);
    crate::rewards::lemma_accrued_bounds(s.short_amount, pool.short_reward_index, s.short_index);
    let p2 = spec_unbond(pool, s, amount).0;
    let s2 = spec_unbond(pool, s, amount).1;
    assert(spec_effective_index(p2, s2) == s2.index);
}

/// Conservation across a short-exposure change: the mirror of the bond and
/// unbond laws. The position's withdrawable entitlement is exactly
/// unchanged, and the pool's indices are untouched.
pub proof fn law_short_change_conserves_realizable(pool: PoolInfo, s: RewardInfo, amount: u128)
    requires
        staker_wf(pool, s),
        checkpoint_bond_fits(pool, s),
        crate::staking::increase_short_fits(pool, s, amount),
    ensures
        ({
            let up = crate::staking::spec_increase_short(pool, s, amount);
            spec_realizable(up.0, up.1) == spec_realizable(pool, s)
        }),
        amount <= s.short_amount && amount <= pool.total_short_amount ==> ({
            let down = crate::staking::spec_decrease_short(pool, s, amount);
            spec_realizable(down.0, down.1) == spec_realizable(pool, s)
        }),
{
    crate::rewards::lemma_accrued_bounds(s.bond_amount, spec_effective_index(pool, s), s.index);
    crate::rewards::lemma_accrued_bounds(s.short_amount, pool.short_reward_index, s.short_index);
    let up = crate::staking::spec_increase_short(pool, s, amount);
    assert(spec_effective_index(up.0, up.1) == spec_effective_index(pool, s));
    let down = crate::staking::spec_decrease_short(pool, s, amount);
    assert(spec_effective_index(down.0, down.1) == spec_effective_index(pool, s));
}

/// Conservation across a migration: deprecating the staking token freezes a
/// position's accrual basis at the very value it was accruing against, so
/// the deprecation itself neither grants nor takes a single unit of reward
/// from any position.
pub proof fn law_deprecate_preserves_entitlement(
    pool: PoolInfo,
    s: RewardInfo,
    new_staking_token: u64,
)
    requires
        pool.wf(),
        staker_wf(pool, s),
        pool.migration is NotMigrated,
    ensures
        spec_realizable(spec_deprecate(pool, new_staking_token), s) == spec_realizable(pool, s),
        staker_wf(spec_deprecate(pool, new_staking_token), s),
{
    let p2 = spec_deprecate(pool, new_staking_token);
    assert(spec_effective_index(p2, s) == pool.reward_index);
}

/// Conservation across a one-sided distribution: the deposit joins the
/// pending amount, and what leaves the pending amount is exactly what the
/// index delta promises to the stake (`total * delta`), up to one fractional
/// unit that stays pending for the next deposit. Nothing is created or
/// silently dropped.
pub proof fn law_distribute_conservation(total: u128, index: Dec, pending: u128, amount: u128)
    requires
        distribute_fits(total, index, pending, amount),
    ensures
        ({
            let r = spec_distribute(total, index, pending, amount);
            &&& r.1 <= pending + amount
            &&& r.0.raw >= index.raw
            &&& total == 0 ==> r.0 == index && r.1 == pending + amount
            &&& total > 0 ==> (pending + amount - r.1) * DEC_SCALE <= total * (r.0.raw
                - index.raw) < (pending + amount - r.1) * DEC_SCALE + DEC_SCALE
            &&& pending + amount - r.1 == (total * (r.0.raw - index.raw)) / (DEC_SCALE as int)
        }),
{
    if total > 0 {
        let pi = pending + amount;
        let ti = total as int;
        let si = DEC_SCALE as int;
        let d = (pi * si) / ti;
        lemma_div_le_self(pi * si, ti);
        lemma_mul_ordered(ti, 0, d);
        lemma_mul_div_bounds(pi * si, ti);
        lemma_div_ordered(ti * d, pi * si, si);
        assert((pi * si) / si == pi) by (nonlinear_arith)
            requires
                pi >= 0,
                si >= 1,
        ;
        lemma_mul_div_bounds(ti * d, si);
        lemma_div_le_self(ti * d, si);
    }
}

/// Conservation across a whole-pool deposit: the deposit splits exactly into
/// the short portion and the long remainder, and each side obeys the
/// one-sided conservation law.
pub proof fn law_deposit_conservation(pool: PoolInfo, amount: u128)
    requires
        pool.wf(),
        deposit_fits(pool, amount),
    ensures
        ({
            let p2 = spec_deposit_pool(pool, amount);
            let short = spec_short_portion(pool, amount);
            let long = amount - short;
            &&& 0 <= short <= amount
            &&& p2.pending_reward <= pool.pending_reward + long
            &&& p2.short_pending_reward <= pool.short_pending_reward + short
            &&& pool.total_bond_amount > 0 ==> (pool.pending_reward + long - p2.pending_reward)
                * DEC_SCALE <= pool.total_bond_amount * (p2.reward_index.raw
                - pool.reward_index.raw) < (pool.pending_reward + long - p2.pending_reward)
                * DEC_SCALE + DEC_SCALE
            &&& pool.total_short_amount > 0 ==> (pool.short_pending_reward + short
                - p2.short_pending_reward) * DEC_SCALE <= pool.total_short_amount * (
            p2.short_reward_index.raw - pool.short_reward_index.raw) < (pool.short_pending_reward
                + short - p2.short_pending_reward) * DEC_SCALE + DEC_SCALE
            &&& pool.total_bond_amount == 0 ==> p2.pending_reward == pool.pending_reward + long
            &&& pool.total_short_amount == 0 ==> p2.short_pending_reward
                == pool.short_pending_reward + short
        }),
{
    lemma_short_portion_le(pool, amount);
    let short = spec_short_portion(pool, amount) as u128;
    let long = (amount - short) as u128;
    law_distribute_conservation(
        pool.total_short_amount,
        pool.short_reward_index,
        pool.short_pending_reward,
        short,
    );
    law_distribute_conservation(pool.total_bond_amount, pool.reward_index, pool.pending_reward, long);
}

/// Conservation at a withdrawal: the staker is paid exactly what the
/// position had realized and could realize, and afterwards the position can
/// realize exactly nothing — reward is moved out once, never duplicated.
pub proof fn law_withdraw_pays_out_exactly(pool: PoolInfo, s: RewardInfo)
    requires
        staker_wf(pool, s),
        crate::rewards::withdraw_fits(pool, s),
    ensures
        ({
            let s2 = (RewardInfo {
                pending_reward: 0,
                ..spec_checkpoint_short(pool, spec_checkpoint_bond(pool, s))
            });
            &&& spec_realizable(pool, s2) == 0
            &&& spec_realizable(pool, s) == s.pending_reward + spec_accrued(
                s.bond_amount,
                spec_effective_index(pool, s),
                s.index,
            ) + spec_accrued(s.short_amount, pool.short_reward_index, s.short_index)
        }),
{
    let s1 = spec_checkpoint_bond(pool, s);
    let s2 = (RewardInfo { pending_reward: 0, ..spec_checkpoint_short(pool, s1) });
    assert(spec_effective_index(pool, s2) == s2.index);
}

/// Index monotonicity: a deposit never moves either cumulative index
/// backwards. (Every other operation leaves both indices exactly unchanged,
/// as its contract states.)
pub proof fn law_deposit_index_monotone(pool: PoolInfo, amount: u128)
    requires
        pool.wf(),
        deposit_fits(pool, amount),
    ensures
        spec_deposit_pool(pool, amount).reward_index.raw >= pool.reward_index.raw,
        spec_deposit_pool(pool, amount).short_reward_index.raw >= pool.short_reward_index.raw,
{
    law_deposit_conservation(pool, amount);
}

/// No reward without stake: a deposit made while a side's total stake is
/// zero leaves that side's index untouched and is absorbed entirely into the
/// side's pending amount.
pub proof fn law_no_reward_without_stake(pool: PoolInfo, amount: u128)
    requires
        pool.wf(),
        deposit_fits(pool, amount),
        pool.total_bond_amount == 0,
    ensures
        spec_deposit_pool(pool, amount).reward_index == pool.reward_index,
        spec_deposit_pool(pool, amount).pending_reward == pool.pending_reward + amount
            - spec_short_portion(pool, amount),
{
    lemma_short_portion_le(pool, amount);
}

/// Total bonded amount recorded across a set of positions.
pub open spec fn sum_bond(stakers: Seq<RewardInfo>) -> int
    decreases stakers.len(),
{
    if stakers.len() == 0 {
        0
    } else {
        sum_bond(stakers.drop_last()) + stakers.last().bond_amount
    }
}

/// Total short exposure recorded across a set of positions.
pub open spec fn sum_short(stakers: Seq<RewardInfo>) -> int
    decreases stakers.len(),
{
    if stakers.len() == 0 {
        0
    } else {
        sum_short(stakers.drop_last()) + stakers.last().short_amount
    }
}

/// Total withdrawable entitlement across a set of positions.
pub open spec fn sum_realizable(pool: PoolInfo, stakers: Seq<RewardInfo>) -> int
    decreases stakers.len(),
{
    if stakers.len() == 0 {
        0
    } else {
        sum_realizable(pool, stakers.drop_last()) + spec_realizable(pool, stakers.last())
    }
}

/// Recorded stake totals are sums of non-negative amounts.
pub proof fn lemma_sums_nonneg(stakers: Seq<RewardInfo>)
    ensures
        sum_bond(stakers) >= 0,
        sum_short(stakers) >= 0,
    decreases stakers.len(),
{
    if stakers.len() > 0 {
        lemma_sums_nonneg(stakers.drop_last());
    }
}

/// Splitting a truncating division over a sum of non-negative terms loses at
/// most one unit.
pub proof fn lemma_floor_add(x: int, y: int, s: int)
    requires
        x >= 0,
        y >= 0,
        s >= 1,
    ensures
        x / s + y / s <= (x + y) / s <= x / s + y / s + 1,
{
    vstd::arithmetic::div_mod::lemma_fundamental_div_mod(x, s);
    vstd::arithmetic::div_mod::lemma_fundamental_div_mod(y, s);
    vstd::arithmetic::div_mod::lemma_mod_bound(x, s);
    vstd::arithmetic::div_mod::lemma_mod_bound(y, s);
    assert((x / s + y / s) * s == s * (x / s) + s * (y / s)) by (nonlinear_arith);
    assert((x / s + y / s + 1) * s == s * (x / s) + s * (y / s) + s) by (nonlinear_arith);
    if x % s + y % s < s {
        vstd::arithmetic::div_mod::lemma_fundamental_div_mod_converse(
            x + y,
            s,
            x / s + y / s,
            x % s + y % s,
        );
    } else {
        vstd::arithmetic::div_mod::lemma_fundamental_div_mod_converse(
            x + y,
            s,
            x / s + y / s + 1,
            x % s + y % s - s,
        );
    }
}

/// Raising both cumulative indices changes the total entitlement of any set
/// of positions by the stake-weighted index deltas, within one truncation
/// unit per position and side.
pub proof fn lemma_sum_realizable_delta(pool: PoolInfo, p2: PoolInfo, stakers: Seq<RewardInfo>)
    requires
        pool.migration is NotMigrated,
        p2.migration is NotMigrated,
        p2.reward_index.raw >= pool.reward_index.raw,
        p2.short_reward_index.raw >= pool.short_reward_index.raw,
    ensures
        ({
            let si = DEC_SCALE as int;
            let dl = p2.reward_index.raw - pool.reward_index.raw;
            let ds = p2.short_reward_index.raw - pool.short_reward_index.raw;
            let promised = (sum_bond(stakers) * dl) / si + (sum_short(stakers) * ds) / si;
            promised - 2 * stakers.len() <= sum_realizable(p2, stakers) - sum_realizable(
                pool,
                stakers,
            ) <= promised + 2 * stakers.len()
        }),
    decreases stakers.len(),
{
    let si = DEC_SCALE as int;
    let dl = p2.reward_index.raw - pool.reward_index.raw;
    let ds = p2.short_reward_index.raw - pool.short_reward_index.raw;
    if stakers.len() == 0 {
    } else {
        let rest = stakers.drop_last();
        let s = stakers.last();
        let b = s.bond_amount as int;
        let h = s.short_amount as int;
        lemma_sum_realizable_delta(pool, p2, rest);
        lemma_sums_nonneg(rest);
        // this position's entitlement grows by its share of each delta, up
        // to one unit per side
        assert(b * p2.reward_index.raw == b * pool.reward_index.raw + b * dl) by (nonlinear_arith)
            requires
                dl == p2.reward_index.raw - pool.reward_index.raw,
        ;
        assert(h * p2.short_reward_index.raw == h * pool.short_reward_index.raw + h * ds)
            by (nonlinear_arith)
            requires
                ds == p2.short_reward_index.raw - pool.short_reward_index.raw,
        ;
        lemma_mul_ordered(b, 0, pool.reward_index.raw as int);
        lemma_mul_ordered(b, 0, dl);
        lemma_mul_ordered(h, 0, pool.short_reward_index.raw as int);
        lemma_mul_ordered(h, 0, ds);
        lemma_floor_add(b * pool.reward_index.raw, b * dl, si);
        lemma_floor_add(h * pool.short_reward_index.raw, h * ds, si);
        // and the recorded totals split their promised share the same way
        assert(sum_bond(stakers) * dl == sum_bond(rest) * dl + b * dl) by (nonlinear_arith)
            requires
                sum_bond(stakers) == sum_bond(rest) + b,
        ;
        assert(sum_short(stakers) * ds == sum_short(rest) * ds + h * ds) by (nonlinear_arith)
            requires
                sum_short(stakers) == sum_short(rest) + h,
        ;
        lemma_mul_ordered(sum_bond(rest), 0, dl);
        lemma_mul_ordered(sum_short(rest), 0, ds);
        lemma_floor_add(sum_bond(rest) * dl, b * dl, si);
        lemma_floor_add(sum_short(rest) * ds, h * ds, si);
    }
}

/// Conservation across a whole-pool deposit, summed over every position of
/// the pool: given the recorded totals (the sums of the individual stakes),
/// the deposit grows the pool's books — both pending amounts plus every
/// staker's withdrawable entitlement — by exactly the deposited amount, up
/// to one truncation unit per position and side. No reward token is created
/// or destroyed beyond that sub-unit dust, which stays in the index until
/// further accrual completes it.
pub proof fn law_conservation_across_deposit(
    pool: PoolInfo,
    stakers: Seq<RewardInfo>,
    amount: u128,
)
    requires
        pool.wf(),
        deposit_fits(pool, amount),
        pool.migration is NotMigrated,
        sum_bond(stakers) == pool.total_bond_amount,
        sum_short(stakers) == pool.total_short_amount,
    ensures
        ({
            let p2 = spec_deposit_pool(pool, amount);
            let before = pool.pending_reward + pool.short_pending_reward + sum_realizable(
                pool,
                stakers,
            );
            let after = p2.pending_reward + p2.short_pending_reward + sum_realizable(p2, stakers);
            before + amount - 2 * stakers.len() <= after <= before + amount + 2 * stakers.len()
        }),
{
    let p2 = spec_deposit_pool(pool, amount);
    lemma_short_portion_le(pool, amount);
    let short = spec_short_portion(pool, amount) as u128;
    let long = (amount - short) as u128;
    law_distribute_conservation(
        pool.total_short_amount,
        pool.short_reward_index,
        pool.short_pending_reward,
        short,
    );
    law_distribute_conservation(pool.total_bond_amount, pool.reward_index, pool.pending_reward, long);
    lemma_sum_realizable_delta(pool, p2, stakers);
}

/// Checkpoint idempotence: with no index movement in between, running a
/// checkpoint a second time realizes nothing further and changes nothing.
pub proof fn law_checkpoint_idempotent(pool: PoolInfo, s: RewardInfo)
    requires
        staker_wf(pool, s),
        checkpoint_bond_fits(pool, s),
        checkpoint_short_fits(pool, s),
    ensures
        spec_checkpoint_bond(pool, spec_checkpoint_bond(pool, s)) == spec_checkpoint_bond(pool, s),
        spec_checkpoint_short(pool, spec_checkpoint_short(pool, s)) == spec_checkpoint_short(
            pool,
            s,
        ),
{
}

/// Migration snapshot stability: deprecating a staking token freezes the
/// dormant position's accrual basis at the snapshot. Deposits made after the
/// migration move only the live index; the dormant position's effective
/// index stays at the snapshot, so once it has checkpointed there it accrues
/// exactly nothing more. A fresh position opened under the new token starts
/// from the pool's current index as its baseline.
pub proof fn law_migration_snapshot_stability(
    pool: PoolInfo,
    s: RewardInfo,
    new_staking_token: u64,
    deposit_amount: u128,
)
    requires
        pool.wf(),
        staker_wf(pool, s),
        pool.migration is NotMigrated,
        new_staking_token != pool.staking_token,
        deposit_fits(spec_deprecate(pool, new_staking_token), deposit_amount),
    ensures
        ({
            let p2 = spec_deprecate(pool, new_staking_token);
            let p3 = spec_deposit_pool(p2, deposit_amount);
            let settled = spec_checkpoint_bond(p2, s);
            &&& is_dormant(p2, s)
            &&& spec_effective_index(p2, s) == pool.reward_index
            &&& spec_effective_index(p3, s) == pool.reward_index
            &&& spec_accrued(settled.bond_amount, spec_effective_index(p3, settled), settled.index)
                == 0
            &&& RewardInfo::spec_new(p3).index.raw <= p3.reward_index.raw
            &&& spec_bond(p3, RewardInfo::spec_new(p3), 1).1.index == p3.reward_index
        }),
{
    let p2 = spec_deprecate(pool, new_staking_token);
    let p3 = spec_deposit_pool(p2, deposit_amount);
    let settled = spec_checkpoint_bond(p2, s);
    assert(is_dormant(p3, settled));
    assert(spec_effective_index(p3, settled) == settled.index);
}

} // verus!
