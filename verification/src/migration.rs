//! Migration engine: deprecating a pool's staking token.
//!
//! Deprecation freezes the pool's reward index into a snapshot, remembers the
//! old token, zeroes the bonded total (old-token positions become dormant
//! until they unbond), and swaps the staking token. It happens at most once
//! per pool: a second attempt is refused, leaving the pool untouched.

use vstd::prelude::*;

use crate::state::{Error, MigrationState, PoolInfo};

verus! {

/// Effect of a successful deprecation.
pub open spec fn spec_deprecate(pool: PoolInfo, new_staking_token: u64) -> PoolInfo {
    PoolInfo {
        staking_token: new_staking_token,
        total_bond_amount: 0,
        migration: MigrationState::Migrated {
            index_snapshot: pool.reward_index,
            deprecated_staking_token: pool.staking_token,
        },
        ..pool
    }
}

/// Deprecate a pool's staking token in favor of `new_staking_token`.
pub fn deprecate_pool(pool: &mut PoolInfo, new_staking_token: u64) -> (r: Result<(), Error>)
    requires
        old(pool).wf(),
    ensures
        r is Ok <==> old(pool).migration is NotMigrated,
        r is Ok ==> *final(pool) == spec_deprecate(*old(pool), new_staking_token),
        r is Err ==> r == Err::<(), Error>(Error::AlreadyMigrated) && *final(pool) == *old(pool),
        final(pool).wf(),
{
    match pool.migration {
        MigrationState::Migrated { .. } => {
            return Err(Error::AlreadyMigrated);
        },
        MigrationState::NotMigrated => {},
    }
    pool.migration = MigrationState::Migrated {
        index_snapshot: pool.reward_index,
        deprecated_staking_token: pool.staking_token,
    };
    pool.total_bond_amount = 0;
    pool.staking_token = new_staking_token;
    Ok(())
}

} // verus!
