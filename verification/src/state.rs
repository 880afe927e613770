//! Data model: configuration, per-asset pool records, per-staker position
//! records, and the error taxonomy.
//!
//! Identities (owner, token contracts, stakers, denominations) are opaque
//! `u64` ids assigned by the host; the core never interprets them beyond
//! equality.

use vstd::prelude::*;

use crate::dec::{Dec, DEC_SCALE};

verus! {

/// Premium threshold and the short reward weight that applies while the
/// premium signal exceeds it.
#[derive(Clone, Copy, PartialEq, Eq, Structural, Debug)]
pub struct ShortRewardBound {
    pub threshold: Dec,
    pub weight: Dec,
}

/// Process-wide configuration, mutable only by the owner.
#[derive(Clone, Copy, PartialEq, Eq, Structural, Debug)]
pub struct Config {
    /// Identity allowed to register assets, migrate staking tokens and update
    /// this configuration.
    pub owner: u64,
    /// Identity of the reward token contract; the only sender whose deposits
    /// are accepted.
    pub reward_token: u64,
    /// Identity of the module authorized to manage short exposure.
    pub mint_contract: u64,
    /// Identity of the price oracle collaborator (held for the host; the core
    /// receives premium values directly).
    pub oracle_contract: u64,
    /// Identity of the swap factory collaborator (held for the host).
    pub factory_contract: u64,
    /// Base denomination id (held for the host).
    pub base_denom: u64,
    /// Minimum number of seconds between two premium adjustments of the same
    /// pool.
    pub premium_min_update_interval: u64,
    /// Premium threshold and the short reward weight applied while the
    /// premium exceeds it.
    pub short_reward_bound: ShortRewardBound,
}

impl Config {
    /// The configured short reward weight is a fraction of each deposit, so
    /// it never exceeds one.
    pub open spec fn wf(self) -> bool {
        self.short_reward_bound.weight.raw <= DEC_SCALE
    }
}

/// Migration dimension of a pool: either still on its original staking token,
/// or migrated exactly once, with the reward index frozen at the moment of
/// deprecation.
#[derive(Clone, Copy, PartialEq, Eq, Structural, Debug)]
pub enum MigrationState {
    NotMigrated,
    Migrated { index_snapshot: Dec, deprecated_staking_token: u64 },
}

/// Per-asset pool record.
#[derive(Clone, Copy, PartialEq, Eq, Structural, Debug)]
pub struct PoolInfo {
    /// Current staking token of the pool.
    pub staking_token: u64,
    /// Total amount bonded under the current staking token.
    pub total_bond_amount: u128,
    /// Total short exposure recorded for the pool.
    pub total_short_amount: u128,
    /// Cumulative reward per bonded unit; never decreases.
    pub reward_index: Dec,
    /// Cumulative reward per short unit; never decreases.
    pub short_reward_index: Dec,
    /// Deposited long-side reward not yet folded into `reward_index`
    /// (truncation remainders, and deposits made while nothing was bonded).
    pub pending_reward: u128,
    /// Short-side counterpart of `pending_reward`.
    pub short_pending_reward: u128,
    /// Last premium signal recorded for the pool.
    pub premium_rate: Dec,
    /// Fraction of each deposit routed to the short side.
    pub short_reward_weight: Dec,
    /// Time of the last premium adjustment, in seconds.
    pub premium_updated_time: u64,
    /// Migration dimension; set exactly once per pool.
    pub migration: MigrationState,
}

impl PoolInfo {
    /// A freshly registered pool: everything zero, not migrated.
    pub fn new(staking_token: u64) -> (r: PoolInfo)
        ensures
            r == PoolInfo::spec_new(staking_token),
    {
        PoolInfo {
            staking_token,
            total_bond_amount: 0,
            total_short_amount: 0,
            reward_index: Dec::zero(),
            short_reward_index: Dec::zero(),
            pending_reward: 0,
            short_pending_reward: 0,
            premium_rate: Dec::zero(),
            short_reward_weight: Dec::zero(),
            premium_updated_time: 0,
            migration: MigrationState::NotMigrated,
        }
    }

    pub open spec fn spec_new(staking_token: u64) -> PoolInfo {
        PoolInfo {
            staking_token,
            total_bond_amount: 0,
            total_short_amount: 0,
            reward_index: Dec { raw: 0 },
            short_reward_index: Dec { raw: 0 },
            pending_reward: 0,
            short_pending_reward: 0,
            premium_rate: Dec { raw: 0 },
            short_reward_weight: Dec { raw: 0 },
            premium_updated_time: 0,
            migration: MigrationState::NotMigrated,
        }
    }

    /// Pool well-formedness: the split weight is a fraction, and a migration
    /// snapshot never runs ahead of the live index.
    pub open spec fn wf(self) -> bool {
        &&& self.short_reward_weight.raw <= DEC_SCALE
        &&& match self.migration {
            MigrationState::Migrated { index_snapshot, .. } =>
                index_snapshot.raw <= self.reward_index.raw,
            MigrationState::NotMigrated => true,
        }
    }
}

/// Per-(staker, asset) position record.
#[derive(Clone, Copy, PartialEq, Eq, Structural, Debug)]
pub struct RewardInfo {
    /// The staking token generation this bond stands under. Equal to the
    /// pool's current staking token, unless the pool migrated after the bond
    /// was made, in which case it still names the deprecated token until the
    /// position is unbonded.
    pub staking_token: u64,
    /// Amount bonded by this staker.
    pub bond_amount: u128,
    /// Short exposure recorded for this staker.
    pub short_amount: u128,
    /// The pool reward index last observed by this position.
    pub index: Dec,
    /// The pool short reward index last observed by this position.
    pub short_index: Dec,
    /// Reward realized at checkpoints but not yet withdrawn.
    pub pending_reward: u128,
}

impl RewardInfo {
    /// A fresh, empty position under the pool's current staking token.
    pub fn new(pool: &PoolInfo) -> (r: RewardInfo)
        ensures
            r == RewardInfo::spec_new(*pool),
    {
        RewardInfo {
            staking_token: pool.staking_token,
            bond_amount: 0,
            short_amount: 0,
            index: Dec::zero(),
            short_index: Dec::zero(),
            pending_reward: 0,
        }
    }

    pub open spec fn spec_new(pool: PoolInfo) -> RewardInfo {
        RewardInfo {
            staking_token: pool.staking_token,
            bond_amount: 0,
            short_amount: 0,
            index: Dec { raw: 0 },
            short_index: Dec { raw: 0 },
            pending_reward: 0,
        }
    }

    /// A position is destroyed once bonded, short and pending amounts all
    /// reach zero.
    pub fn is_empty(&self) -> (r: bool)
        ensures
            r == (self.bond_amount == 0 && self.short_amount == 0 && self.pending_reward == 0),
    {
        self.bond_amount == 0 && self.short_amount == 0 && self.pending_reward == 0
    }
}

/// Whether a position is dormant: bonded under a staking token that the pool
/// has since deprecated. A dormant position keeps its accrued reward up to
/// the migration snapshot but earns no further index growth.
pub open spec fn is_dormant(pool: PoolInfo, s: RewardInfo) -> bool {
    match pool.migration {
        MigrationState::Migrated { deprecated_staking_token, .. } =>
            s.staking_token == deprecated_staking_token
                && s.staking_token != pool.staking_token,
        MigrationState::NotMigrated => false,
    }
}

/// The long-side index against which a position accrues: the live pool index,
/// or the frozen snapshot for a dormant position.
pub open spec fn spec_effective_index(pool: PoolInfo, s: RewardInfo) -> Dec {
    if is_dormant(pool, s) {
        match pool.migration {
            MigrationState::Migrated { index_snapshot, .. } => index_snapshot,
            MigrationState::NotMigrated => pool.reward_index,
        }
    } else {
        pool.reward_index
    }
}

/// Position well-formedness relative to its pool: the generation it names is
/// the pool's current token or the deprecated one, and its observed indices
/// never run ahead of the indices it accrues against.
pub open spec fn staker_wf(pool: PoolInfo, s: RewardInfo) -> bool {
    &&& s.staking_token == pool.staking_token || is_dormant(pool, s)
    &&& s.index.raw <= spec_effective_index(pool, s).raw
    &&& s.short_index.raw <= pool.short_reward_index.raw
}

/// Error taxonomy. Every failed operation leaves all state exactly as it was.
#[derive(Clone, Copy, PartialEq, Eq, Structural, Debug)]
pub enum Error {
    /// Wrong caller for an owner-only or token-gated operation.
    Unauthorized,
    /// The asset has no registered pool.
    PoolNotFound,
    /// The staker has no position for the asset.
    RewardInfoNotFound,
    /// The asset was already registered.
    AlreadyRegistered,
    /// The asset's staking token has already been migrated once.
    AlreadyMigrated,
    /// A bond arrived under a deprecated staking token; the field names the
    /// token the pool migrated to.
    StakingTokenMigrated { new_staking_token: u64 },
    /// The per-asset reward amounts do not sum to the transferred total.
    RewardAmountMismatch,
    /// Unbonding more than the recorded bonded amount.
    InsufficientBond,
    /// Decreasing short exposure below zero.
    InsufficientShort,
    /// Premium adjustment attempted before the minimum update interval
    /// elapsed.
    PremiumTooEarly,
}

} // verus!
