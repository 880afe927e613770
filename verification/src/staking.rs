//! Position engine: bond, unbond, and the short-exposure mirror operations.
//!
//! Every stake-size mutation first runs the checkpoint of `crate::rewards`,
//! so that the reward earned while the stake was constant is realized before
//! the stake changes.

use vstd::prelude::*;

use crate::rewards::{
    checkpoint_bond, checkpoint_bond_fits, checkpoint_short, checkpoint_short_fits,
    spec_checkpoint_bond, spec_checkpoint_short,
};
use crate::state::{is_dormant, staker_wf, Error, MigrationState, PoolInfo, RewardInfo};

verus! {

/// Gate for an incoming bond: which sender token is acceptable. A deprecated
/// token is rejected with a redirect naming the pool's new staking token;
/// anything else foreign is plainly unauthorized.
pub open spec fn spec_check_bond_token(pool: PoolInfo, token: u64) -> Result<(), Error> {
    if token == pool.staking_token {
        Ok(())
    } else {
        match pool.migration {
            MigrationState::Migrated { deprecated_staking_token, .. } => {
                if token == deprecated_staking_token {
                    Err(Error::StakingTokenMigrated { new_staking_token: pool.staking_token })
                } else {
                    Err(Error::Unauthorized)
                }
            },
            MigrationState::NotMigrated => Err(Error::Unauthorized),
        }
    }
}

/// Check that a bond arriving from `token` may enter the pool.
pub fn check_bond_token(pool: &PoolInfo, token: u64) -> (r: Result<(), Error>)
    ensures
        r == spec_check_bond_token(*pool, token),
{
    if token == pool.staking_token {
        return Ok(());
    }
    match pool.migration {
        MigrationState::Migrated { index_snapshot: _, deprecated_staking_token } => {
            if token == deprecated_staking_token {
                Err(Error::StakingTokenMigrated { new_staking_token: pool.staking_token })
            } else {
                Err(Error::Unauthorized)
            }
        },
        MigrationState::NotMigrated => Err(Error::Unauthorized),
    }
}

/// A bond fits in machine integers.
pub open spec fn bond_fits(pool: PoolInfo, s: RewardInfo, amount: u128) -> bool {
    &&& checkpoint_bond_fits(pool, s)
    &&& s.bond_amount + amount <= u128::MAX
    &&& pool.total_bond_amount + amount <= u128::MAX
}

/// Effect of bonding `amount` for a non-dormant position: checkpoint, then
/// grow both the position's bond and the pool total.
pub open spec fn spec_bond(pool: PoolInfo, s: RewardInfo, amount: u128) -> (PoolInfo, RewardInfo) {
    let cs = spec_checkpoint_bond(pool, s);
    (
        PoolInfo { total_bond_amount: (pool.total_bond_amount + amount) as u128, ..pool },
        RewardInfo { bond_amount: (s.bond_amount + amount) as u128, ..cs },
    )
}

/// Bond `amount` staking tokens for a position. The token custody transfer
/// has already happened on the host side; dormant positions (bonded under a
/// deprecated token) must unbond and re-bond instead.
pub fn bond(pool: &mut PoolInfo, s: &mut RewardInfo, amount: u128)
    requires
        old(pool).wf(),
        staker_wf(*old(pool), *old(s)),
        !is_dormant(*old(pool), *old(s)),
        amount > 0,
        bond_fits(*old(pool), *old(s), amount),
    ensures
        (*final(pool), *final(s)) == spec_bond(*old(pool), *old(s), amount),
        final(pool).wf(),
        staker_wf(*final(pool), *final(s)),
        final(s).index == old(pool).reward_index,
        final(pool).reward_index == old(pool).reward_index,
{
    checkpoint_bond(pool, s);
    s.bond_amount = s.bond_amount + amount;
    pool.total_bond_amount = pool.total_bond_amount + amount;
}

/// Effect of unbonding `amount`: checkpoint at the effective index, shrink
/// the position, and shrink the pool total only for a live (non-dormant)
/// position, since a dormant bond no longer counts in it.
pub open spec fn spec_unbond(pool: PoolInfo, s: RewardInfo, amount: u128) -> (
    PoolInfo,
    RewardInfo,
) {
    let cs = spec_checkpoint_bond(pool, s);
    let new_total = if is_dormant(pool, s) {
        pool.total_bond_amount
    } else {
        (pool.total_bond_amount - amount) as u128
    };
    (
        PoolInfo { total_bond_amount: new_total, ..pool },
        RewardInfo { bond_amount: (s.bond_amount - amount) as u128, ..cs },
    )
}

/// Unbond `amount` staking tokens. Fails if the position holds less than
/// `amount`; releasing the tokens is the host's transfer. A dormant position
/// is settled against the migration snapshot.
pub fn unbond(pool: &mut PoolInfo, s: &mut RewardInfo, amount: u128) -> (r: Result<(), Error>)
    requires
        old(pool).wf(),
        staker_wf(*old(pool), *old(s)),
        checkpoint_bond_fits(*old(pool), *old(s)),
    ensures
        r is Ok <==> amount <= old(s).bond_amount && (!is_dormant(*old(pool), *old(s))
            ==> amount <= old(pool).total_bond_amount),
        r is Ok ==> (*final(pool), *final(s)) == spec_unbond(*old(pool), *old(s), amount),
        r is Err ==> r == Err::<(), Error>(Error::InsufficientBond) && *final(pool) == *old(pool)
            && *final(s) == *old(s),
        final(pool).wf(),
        staker_wf(*final(pool), *final(s)),
        final(pool).reward_index == old(pool).reward_index,
{
    if amount > s.bond_amount {
        return Err(Error::InsufficientBond);
    }
    let dormant = match pool.migration {
        MigrationState::Migrated { index_snapshot: _, deprecated_staking_token } => s.staking_token
            == deprecated_staking_token && s.staking_token != pool.staking_token,
        MigrationState::NotMigrated => false,
    };
    if !dormant && amount > pool.total_bond_amount {
        return Err(Error::InsufficientBond);
    }
    checkpoint_bond(pool, s);
    s.bond_amount = s.bond_amount - amount;
    if !dormant {
        pool.total_bond_amount = pool.total_bond_amount - amount;
    }
    Ok(())
}

/// A short increase fits in machine integers.
pub open spec fn increase_short_fits(pool: PoolInfo, s: RewardInfo, amount: u128) -> bool {
    &&& checkpoint_short_fits(pool, s)
    &&& s.short_amount + amount <= u128::MAX
    &&& pool.total_short_amount + amount <= u128::MAX
}

/// Effect of increasing short exposure: the short-side mirror of a bond.
pub open spec fn spec_increase_short(pool: PoolInfo, s: RewardInfo, amount: u128) -> (
    PoolInfo,
    RewardInfo,
) {
    let cs = spec_checkpoint_short(pool, s);
    (
        PoolInfo { total_short_amount: (pool.total_short_amount + amount) as u128, ..pool },
        RewardInfo { short_amount: (s.short_amount + amount) as u128, ..cs },
    )
}

/// Increase a position's short exposure. Short accounting is unaffected by
/// staking-token migration.
pub fn increase_short(pool: &mut PoolInfo, s: &mut RewardInfo, amount: u128)
    requires
        old(pool).wf(),
        staker_wf(*old(pool), *old(s)),
        increase_short_fits(*old(pool), *old(s), amount),
    ensures
        (*final(pool), *final(s)) == spec_increase_short(*old(pool), *old(s), amount),
        final(pool).wf(),
        staker_wf(*final(pool), *final(s)),
        final(s).short_index == old(pool).short_reward_index,
{
    checkpoint_short(pool, s);
    s.short_amount = s.short_amount + amount;
    pool.total_short_amount = pool.total_short_amount + amount;
}

/// Effect of decreasing short exposure: the short-side mirror of an unbond.
pub open spec fn spec_decrease_short(pool: PoolInfo, s: RewardInfo, amount: u128) -> (
    PoolInfo,
    RewardInfo,
) {
    let cs = spec_checkpoint_short(pool, s);
    (
        PoolInfo { total_short_amount: (pool.total_short_amount - amount) as u128, ..pool },
        RewardInfo { short_amount: (s.short_amount - amount) as u128, ..cs },
    )
}

/// Decrease a position's short exposure; fails rather than drive either the
/// position or the pool total negative.
pub fn decrease_short(pool: &mut PoolInfo, s: &mut RewardInfo, amount: u128) -> (r: Result<
    (),
    Error,
>)
    requires
        old(pool).wf(),
        staker_wf(*old(pool), *old(s)),
        checkpoint_short_fits(*old(pool), *old(s)),
    ensures
        r is Ok <==> amount <= old(s).short_amount && amount <= old(pool).total_short_amount,
        r is Ok ==> (*final(pool), *final(s)) == spec_decrease_short(*old(pool), *old(s), amount),
        r is Err ==> r == Err::<(), Error>(Error::InsufficientShort) && *final(pool) == *old(pool)
            && *final(s) == *old(s),
        final(pool).wf(),
        staker_wf(*final(pool), *final(s)),
{
    if amount > s.short_amount || amount > pool.total_short_amount {
        return Err(Error::InsufficientShort);
    }
    checkpoint_short(pool, s);
    s.short_amount = s.short_amount - amount;
    pool.total_short_amount = pool.total_short_amount - amount;
    Ok(())
}

} // verus!
