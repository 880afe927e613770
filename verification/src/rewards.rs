//! Reward distribution and the checkpoint pattern.
//!
//! A pool carries a cumulative reward-per-unit index for each side (long
//! bond, short exposure). Depositing reward folds `floor(pending / total)`
//! into the index and carries the truncation remainder forward in the pool's
//! pending amount; a position realizes `(index - observed index) * stake`
//! (each product truncated) whenever its stake is about to change.

use vstd::prelude::*;

use crate::dec::{
    lemma_div_le_self, lemma_div_ordered, lemma_mul_div_bounds, lemma_mul_ordered, Dec, DEC_SCALE,
};
use crate::state::{
    spec_effective_index, staker_wf, Config, Error, MigrationState, PoolInfo, RewardInfo,
};

verus! {

/// Reward realized by an `amount`-unit stake whose observed index moves from
/// `last` to `cur`: the difference of the two truncated products.
pub open spec fn spec_accrued(amount: u128, cur: Dec, last: Dec) -> int {
    crate::dec::spec_mul_floor(amount, cur) - crate::dec::spec_mul_floor(amount, last)
}

/// The long-side checkpoint fits in machine integers.
pub open spec fn checkpoint_bond_fits(pool: PoolInfo, s: RewardInfo) -> bool {
    let eff = spec_effective_index(pool, s);
    &&& s.bond_amount * eff.raw <= u128::MAX
    &&& s.pending_reward + spec_accrued(s.bond_amount, eff, s.index) <= u128::MAX
}

/// The short-side checkpoint fits in machine integers.
pub open spec fn checkpoint_short_fits(pool: PoolInfo, s: RewardInfo) -> bool {
    &&& s.short_amount * pool.short_reward_index.raw <= u128::MAX
    &&& s.pending_reward + spec_accrued(s.short_amount, pool.short_reward_index, s.short_index)
        <= u128::MAX
}

/// Effect of the long-side checkpoint: realize the accrual earned since the
/// position's observed index, move the observed index forward to the
/// effective index (the migration snapshot for a dormant position).
pub open spec fn spec_checkpoint_bond(pool: PoolInfo, s: RewardInfo) -> RewardInfo {
    let eff = spec_effective_index(pool, s);
    RewardInfo {
        index: eff,
        pending_reward: (s.pending_reward + spec_accrued(s.bond_amount, eff, s.index)) as u128,
        ..s
    }
}

/// Effect of the short-side checkpoint.
pub open spec fn spec_checkpoint_short(pool: PoolInfo, s: RewardInfo) -> RewardInfo {
    RewardInfo {
        short_index: pool.short_reward_index,
        pending_reward: (s.pending_reward
            + spec_accrued(s.short_amount, pool.short_reward_index, s.short_index)) as u128,
        ..s
    }
}

/// The effective long-side index of a position.
pub fn effective_index(pool: &PoolInfo, s: &RewardInfo) -> (r: Dec)
    ensures
        r == spec_effective_index(*pool, *s),
{
    match pool.migration {
        MigrationState::Migrated { index_snapshot, deprecated_staking_token } => {
            if s.staking_token == deprecated_staking_token && s.staking_token
                != pool.staking_token {
                index_snapshot
            } else {
                pool.reward_index
            }
        },
        MigrationState::NotMigrated => pool.reward_index,
    }
}

/// Accrual is non-negative and the subtrahend product also fits, whenever the
/// observed index does not run ahead of the current one.
pub proof fn lemma_accrued_bounds(amount: u128, cur: Dec, last: Dec)
    requires
        last.raw <= cur.raw,
        amount * cur.raw <= u128::MAX,
    ensures
        amount * last.raw <= u128::MAX,
        0 <= spec_accrued(amount, cur, last),
{
    lemma_mul_ordered(amount as int, 0, last.raw as int);
    lemma_mul_ordered(amount as int, last.raw as int, cur.raw as int);
    lemma_div_ordered((amount * last.raw) as int, (amount * cur.raw) as int, DEC_SCALE as int);
}

/// Realize the long-side accrual of a position before its bond changes.
pub fn checkpoint_bond(pool: &PoolInfo, s: &mut RewardInfo)
    requires
        staker_wf(*pool, *old(s)),
        checkpoint_bond_fits(*pool, *old(s)),
    ensures
        *final(s) == spec_checkpoint_bond(*pool, *old(s)),
        staker_wf(*pool, *final(s)),
        final(s).pending_reward >= old(s).pending_reward,
{
    let eff = effective_index(pool, s);
    proof {
        lemma_accrued_bounds(s.bond_amount, eff, s.index);
    }
    let total = eff.mul_floor(s.bond_amount);
    let already = s.index.mul_floor(s.bond_amount);
    s.pending_reward = s.pending_reward + (total - already);
    s.index = eff;
}

/// Realize the short-side accrual of a position before its exposure changes.
pub fn checkpoint_short(pool: &PoolInfo, s: &mut RewardInfo)
    requires
        staker_wf(*pool, *old(s)),
        checkpoint_short_fits(*pool, *old(s)),
    ensures
        *final(s) == spec_checkpoint_short(*pool, *old(s)),
        staker_wf(*pool, *final(s)),
        final(s).pending_reward >= old(s).pending_reward,
{
    proof {
        lemma_accrued_bounds(s.short_amount, pool.short_reward_index, s.short_index);
    }
    let total = pool.short_reward_index.mul_floor(s.short_amount);
    let already = s.short_index.mul_floor(s.short_amount);
    s.pending_reward = s.pending_reward + (total - already);
    s.short_index = pool.short_reward_index;
}

/// One side of a deposit fits in machine integers.
pub open spec fn distribute_fits(total: u128, index: Dec, pending: u128, amount: u128) -> bool {
    &&& pending + amount <= u128::MAX
    &&& total > 0 ==> (pending + amount) * DEC_SCALE <= u128::MAX
    &&& total > 0 ==> index.raw + ((pending + amount) * DEC_SCALE) / (total as int) <= u128::MAX
}

/// Effect of depositing `amount` into one side of a pool: the deposit joins
/// the side's pending amount; with a zero total it stays there entirely,
/// otherwise `floor(pending / total)` is folded into the index and exactly
/// the consumed portion `floor(total * delta)` leaves the pending amount.
pub open spec fn spec_distribute(total: u128, index: Dec, pending: u128, amount: u128) -> (
    Dec,
    u128,
) {
    let p = pending + amount;
    if total == 0 {
        (index, p as u128)
    } else {
        let delta = (p * DEC_SCALE) / (total as int);
        let new_index = Dec { raw: (index.raw + delta) as u128 };
        let consumed = (total * delta) / (DEC_SCALE as int);
        (new_index, (p - consumed) as u128)
    }
}

/// Deposit `amount` into one side of a pool.
pub fn distribute(total: u128, index: Dec, pending: u128, amount: u128) -> (r: (Dec, u128))
    requires
        distribute_fits(total, index, pending, amount),
    ensures
        r == spec_distribute(total, index, pending, amount),
        r.0.raw >= index.raw,
        total == 0 ==> r.0 == index && r.1 == pending + amount,
        r.1 <= pending + amount,
        total > 0 ==> (pending + amount - r.1) * DEC_SCALE <= total * (r.0.raw - index.raw)
            < (pending + amount - r.1) * DEC_SCALE + DEC_SCALE,
{
    if total == 0 {
        (index, pending + amount)
    } else {
        let p = pending + amount;
        let delta = Dec::from_ratio(p, total);
        let new_index = index.add(delta);
        proof {
            let pi = p as int;
            let ti = total as int;
            let si = DEC_SCALE as int;
            let d = (pi * si) / ti;
            lemma_div_le_self(pi * si, ti);
            lemma_mul_ordered(ti, 0, d);
            // total * delta stays within p * DEC_SCALE ...
            lemma_mul_div_bounds(pi * si, ti);
            // ... so the consumed amount stays within p.
            lemma_div_ordered(ti * d, pi * si, si);
            assert((pi * si) / si == pi) by (nonlinear_arith)
                requires
                    pi >= 0,
                    si >= 1,
            ;
            // The index delta accounts for the consumed amount exactly, up to
            // one truncated fractional unit.
            lemma_mul_div_bounds(ti * d, si);
            lemma_div_le_self(ti * d, si);
        }
        let consumed = delta.mul_floor(total);
        (new_index, p - consumed)
    }
}

/// Short-side portion of a deposit, routed by the pool's short reward weight.
pub open spec fn spec_short_portion(pool: PoolInfo, amount: u128) -> int {
    crate::dec::spec_mul_floor(amount, pool.short_reward_weight)
}

/// A whole-pool deposit fits in machine integers.
pub open spec fn deposit_fits(pool: PoolInfo, amount: u128) -> bool {
    &&& amount * pool.short_reward_weight.raw <= u128::MAX
    &&& distribute_fits(
        pool.total_short_amount,
        pool.short_reward_index,
        pool.short_pending_reward,
        spec_short_portion(pool, amount) as u128,
    )
    &&& distribute_fits(
        pool.total_bond_amount,
        pool.reward_index,
        pool.pending_reward,
        (amount - spec_short_portion(pool, amount)) as u128,
    )
}

/// Effect of depositing `amount` of reward for one asset: the deposit is
/// split by the short reward weight and each portion distributed into its
/// side.
pub open spec fn spec_deposit_pool(pool: PoolInfo, amount: u128) -> PoolInfo {
    let short_amount = spec_short_portion(pool, amount) as u128;
    let long_amount = (amount - short_amount) as u128;
    let sr = spec_distribute(
        pool.total_short_amount,
        pool.short_reward_index,
        pool.short_pending_reward,
        short_amount,
    );
    let lr = spec_distribute(
        pool.total_bond_amount,
        pool.reward_index,
        pool.pending_reward,
        long_amount,
    );
    PoolInfo {
        reward_index: lr.0,
        pending_reward: lr.1,
        short_reward_index: sr.0,
        short_pending_reward: sr.1,
        ..pool
    }
}

/// The short portion never exceeds the deposit, since the weight is a
/// fraction.
pub proof fn lemma_short_portion_le(pool: PoolInfo, amount: u128)
    requires
        pool.wf(),
    ensures
        0 <= spec_short_portion(pool, amount) <= amount,
{
    lemma_mul_ordered(amount as int, 0, pool.short_reward_weight.raw as int);
    lemma_mul_ordered(amount as int, pool.short_reward_weight.raw as int, DEC_SCALE as int);
    lemma_div_le_self((amount * pool.short_reward_weight.raw) as int, DEC_SCALE as int);
    lemma_div_ordered(
        (amount * pool.short_reward_weight.raw) as int,
        (amount * DEC_SCALE) as int,
        DEC_SCALE as int,
    );
    assert((amount * DEC_SCALE) / (DEC_SCALE as int) == amount) by (nonlinear_arith)
        requires
            DEC_SCALE >= 1,
    ;
}

/// Deposit `amount` of reward for one asset's pool.
pub fn deposit_reward_pool(pool: &mut PoolInfo, amount: u128)
    requires
        old(pool).wf(),
        deposit_fits(*old(pool), amount),
    ensures
        *final(pool) == spec_deposit_pool(*old(pool), amount),
        final(pool).wf(),
        final(pool).reward_index.raw >= old(pool).reward_index.raw,
        final(pool).short_reward_index.raw >= old(pool).short_reward_index.raw,
        old(pool).total_bond_amount == 0 ==> final(pool).reward_index == old(pool).reward_index
            && final(pool).pending_reward == old(pool).pending_reward + amount
            - spec_short_portion(*old(pool), amount),
        old(pool).total_short_amount == 0 ==> final(pool).short_reward_index == old(
            pool,
        ).short_reward_index && final(pool).short_pending_reward == old(
            pool,
        ).short_pending_reward + spec_short_portion(*old(pool), amount),
{
    proof {
        lemma_short_portion_le(*pool, amount);
    }
    let short_amount = pool.short_reward_weight.mul_floor(amount);
    let long_amount = amount - short_amount;
    let (new_short_index, new_short_pending) = distribute(
        pool.total_short_amount,
        pool.short_reward_index,
        pool.short_pending_reward,
        short_amount,
    );
    let (new_index, new_pending) = distribute(
        pool.total_bond_amount,
        pool.reward_index,
        pool.pending_reward,
        long_amount,
    );
    pool.reward_index = new_index;
    pool.pending_reward = new_pending;
    pool.short_reward_index = new_short_index;
    pool.short_pending_reward = new_short_pending;
}

/// Depositing reward moves a pool's indices only upward and touches nothing
/// a position's well-formedness depends on.
pub proof fn lemma_deposit_preserves_staker_wf(pool: PoolInfo, amount: u128, x: RewardInfo)
    requires
        pool.wf(),
        deposit_fits(pool, amount),
        staker_wf(pool, x),
    ensures
        staker_wf(spec_deposit_pool(pool, amount), x),
{
    lemma_short_portion_le(pool, amount);
    let short_amount = spec_short_portion(pool, amount) as u128;
    let long_amount = (amount - short_amount) as u128;
    if pool.total_bond_amount > 0 {
        lemma_div_le_self(
            (pool.pending_reward + long_amount) * DEC_SCALE,
            pool.total_bond_amount as int,
        );
    }
    if pool.total_short_amount > 0 {
        lemma_div_le_self(
            (pool.short_pending_reward + short_amount) * DEC_SCALE,
            pool.total_short_amount as int,
        );
    }
}

/// A full withdrawal checkpoint (both sides) fits in machine integers.
pub open spec fn withdraw_fits(pool: PoolInfo, s: RewardInfo) -> bool {
    let eff = spec_effective_index(pool, s);
    &&& s.bond_amount * eff.raw <= u128::MAX
    &&& s.short_amount * pool.short_reward_index.raw <= u128::MAX
    &&& s.pending_reward + spec_accrued(s.bond_amount, eff, s.index) + spec_accrued(
        s.short_amount,
        pool.short_reward_index,
        s.short_index,
    ) <= u128::MAX
}

/// Everything a position can withdraw right now: realized pending reward plus
/// the accrual both sides would realize at a checkpoint.
pub open spec fn spec_realizable(pool: PoolInfo, s: RewardInfo) -> int {
    s.pending_reward + spec_accrued(s.bond_amount, spec_effective_index(pool, s), s.index)
        + spec_accrued(s.short_amount, pool.short_reward_index, s.short_index)
}

/// Withdraw all realized and realizable reward of a position. Returns the
/// amount owed; paying it out is the host's token transfer.
pub fn withdraw(pool: &PoolInfo, s: &mut RewardInfo) -> (amount: u128)
    requires
        staker_wf(*pool, *old(s)),
        withdraw_fits(*pool, *old(s)),
    ensures
        amount == spec_realizable(*pool, *old(s)),
        *final(s) == (RewardInfo {
            pending_reward: 0,
            ..spec_checkpoint_short(*pool, spec_checkpoint_bond(*pool, *old(s)))
        }),
        staker_wf(*pool, *final(s)),
        final(s).bond_amount == old(s).bond_amount,
        final(s).short_amount == old(s).short_amount,
{
    proof {
        let eff = spec_effective_index(*pool, *old(s));
        lemma_accrued_bounds(old(s).bond_amount, eff, old(s).index);
        lemma_accrued_bounds(old(s).short_amount, pool.short_reward_index, old(s).short_index);
    }
    checkpoint_bond(pool, s);
    checkpoint_short(pool, s);
    let amount = s.pending_reward;
    s.pending_reward = 0;
    amount
}

/// Effect of a successful premium adjustment: record the premium, route the
/// short reward weight by the configured bound, stamp the time.
pub open spec fn spec_adjust_premium(
    pool: PoolInfo,
    config: Config,
    now: u64,
    premium_rate: Dec,
) -> PoolInfo {
    PoolInfo {
        premium_rate,
        short_reward_weight: if premium_rate.raw > config.short_reward_bound.threshold.raw {
            config.short_reward_bound.weight
        } else {
            Dec { raw: 0 }
        },
        premium_updated_time: now,
        ..pool
    }
}

/// Record a fresh premium signal for one pool, rate-limited by the
/// configured minimum update interval. The premium value itself comes from
/// the host's oracle-versus-pool price comparison.
pub fn adjust_premium_pool(pool: &mut PoolInfo, config: &Config, now: u64, premium_rate: Dec) -> (r:
    Result<(), Error>)
    requires
        old(pool).wf(),
        config.wf(),
    ensures
        match r {
            Ok(()) => now >= old(pool).premium_updated_time + config.premium_min_update_interval
                && *final(pool) == spec_adjust_premium(*old(pool), *config, now, premium_rate),
            Err(e) => e == Error::PremiumTooEarly && now < old(pool).premium_updated_time
                + config.premium_min_update_interval && *final(pool) == *old(pool),
        },
        final(pool).wf(),
{
    if pool.premium_updated_time > now || now - pool.premium_updated_time
        < config.premium_min_update_interval {
        return Err(Error::PremiumTooEarly);
    }
    pool.premium_rate = premium_rate;
    pool.short_reward_weight = if premium_rate.gt(config.short_reward_bound.threshold) {
        config.short_reward_bound.weight
    } else {
        Dec::zero()
    };
    pool.premium_updated_time = now;
    Ok(())
}

} // verus!
