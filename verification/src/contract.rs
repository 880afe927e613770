//! The contract state and its keyed entry points.
//!
//! `Staking` carries the configuration, the pool registry (one `PoolInfo`
//! per registered asset id) and the position ledger (one `RewardInfo` per
//! (staker, asset) pair, keyed by a single packed integer). Every operation
//! is a single read-modify-write transition: it either fully applies or
//! fails leaving the state exactly as it was.

use std::collections::HashMap;

use vstd::prelude::*;

use crate::dec::{Dec, DEC_SCALE};
use crate::rewards::{
    adjust_premium_pool, checkpoint_bond_fits, checkpoint_short_fits, deposit_fits,
    deposit_reward_pool, lemma_deposit_preserves_staker_wf, spec_adjust_premium,
    spec_checkpoint_bond, spec_checkpoint_short, spec_deposit_pool, spec_realizable, withdraw,
    withdraw_fits,
};
use crate::staking::{
    bond_fits, check_bond_token, increase_short_fits, spec_bond, spec_check_bond_token,
    spec_decrease_short, spec_increase_short, spec_unbond,
};
use crate::state::{
    is_dormant, staker_wf, Config, Error, MigrationState, PoolInfo, RewardInfo, ShortRewardBound,
};

verus! {

broadcast use vstd::std_specs::hash::group_hash_axioms;

/// Factor that separates the staker id from the asset id inside a packed
/// position key: positions are keyed by `staker * POS_KEY_BASE + asset`.
pub const POS_KEY_BASE: u128 = 0x1_0000_0000_0000_0000;

/// Packed ledger key of the position of `staker` in `asset`'s pool.
pub open spec fn pos_key(staker: u64, asset: u64) -> u128 {
    (staker * POS_KEY_BASE + asset) as u128
}

/// Packing two ids into one key loses nothing.
pub proof fn lemma_pos_key_injective(s1: u64, a1: u64, s2: u64, a2: u64)
    requires
        pos_key(s1, a1) == pos_key(s2, a2),
    ensures
        s1 == s2,
        a1 == a2,
{
    assert(s1 == s2 && a1 == a2) by (nonlinear_arith)
        requires
            s1 * POS_KEY_BASE + a1 == s2 * POS_KEY_BASE + a2,
            a1 < POS_KEY_BASE,
            a2 < POS_KEY_BASE,
    ;
}

/// Compute the packed position key.
pub fn position_key(staker: u64, asset: u64) -> (k: u128)
    ensures
        k == pos_key(staker, asset),
{
    (staker as u128) * POS_KEY_BASE + (asset as u128)
}

/// The whole contract state.
pub struct Staking {
    pub config: Config,
    pub pools: HashMap<u64, PoolInfo>,
    pub rewards: HashMap<u128, RewardInfo>,
}

impl Staking {
    /// Every registered pool is well-formed.
    pub open spec fn pools_wf(self) -> bool {
        forall|a: u64| self.pools@.contains_key(a) ==> (#[trigger] self.pools@[a]).wf()
    }

    /// Every position belongs to a registered pool and is well-formed
    /// relative to it.
    pub open spec fn rewards_wf(self) -> bool {
        forall|staker: u64, asset: u64|
            #[trigger] self.rewards@.contains_key(pos_key(staker, asset))
                ==> self.pools@.contains_key(asset) && staker_wf(
                self.pools@[asset],
                self.rewards@[pos_key(staker, asset)],
            )
    }

    pub open spec fn wf(self) -> bool {
        &&& self.config.wf()
        &&& self.pools_wf()
        &&& self.rewards_wf()
    }

    /// The stored position of `staker` in `asset`'s pool, or a fresh empty
    /// one under the pool's current staking token.
    pub open spec fn spec_position_or_new(self, staker: u64, asset: u64) -> RewardInfo {
        if self.rewards@.contains_key(pos_key(staker, asset)) {
            self.rewards@[pos_key(staker, asset)]
        } else {
            RewardInfo::spec_new(self.pools@[asset])
        }
    }

    /// Initialize the contract state: the given configuration and empty
    /// registries. A missing short reward bound defaults to a premium
    /// threshold of seven hundredths and a weight of forty hundredths.
    pub fn new(
        owner: u64,
        reward_token: u64,
        mint_contract: u64,
        oracle_contract: u64,
        factory_contract: u64,
        base_denom: u64,
        premium_min_update_interval: u64,
        short_reward_bound: Option<ShortRewardBound>,
    ) -> (r: Staking)
        requires
            (short_reward_bound matches Some(b) ==> b.weight.raw <= DEC_SCALE),
        ensures
            r.config == (Config {
                owner,
                reward_token,
                mint_contract,
                oracle_contract,
                factory_contract,
                base_denom,
                premium_min_update_interval,
                short_reward_bound: (match short_reward_bound {
                    Some(b) => b,
                    None => ShortRewardBound {
                        threshold: Dec { raw: 70_000_000_000_000_000 },
                        weight: Dec { raw: 400_000_000_000_000_000 },
                    },
                }),
            }),
            r.pools@ == Map::<u64, PoolInfo>::empty(),
            r.rewards@ == Map::<u128, RewardInfo>::empty(),
            r.wf(),
    {
        let bound = match short_reward_bound {
            Some(b) => b,
            None => ShortRewardBound { threshold: Dec::percent(7), weight: Dec::percent(40) },
        };
        Staking {
            config: Config {
                owner,
                reward_token,
                mint_contract,
                oracle_contract,
                factory_contract,
                base_denom,
                premium_min_update_interval,
                short_reward_bound: bound,
            },
            pools: HashMap::new(),
            rewards: HashMap::new(),
        }
    }

    /// Read-only projection of the configuration.
    pub fn query_config(&self) -> (r: Config)
        ensures
            r == self.config,
    {
        self.config
    }

    /// Read-only projection of one pool record.
    pub fn query_pool_info(&self, asset: u64) -> (r: Result<PoolInfo, Error>)
        ensures
            match r {
                Ok(p) => self.pools@.contains_key(asset) && p == self.pools@[asset],
                Err(e) => e == Error::PoolNotFound && !self.pools@.contains_key(asset),
            },
    {
        match self.pools.get(&asset) {
            Some(p) => Ok(*p),
            None => Err(Error::PoolNotFound),
        }
    }

    /// Read-only projection of one position record.
    pub fn query_reward_info(&self, staker: u64, asset: u64) -> (r: Result<RewardInfo, Error>)
        ensures
            match r {
                Ok(s) => self.rewards@.contains_key(pos_key(staker, asset)) && s
                    == self.rewards@[pos_key(staker, asset)],
                Err(e) => e == Error::RewardInfoNotFound && !self.rewards@.contains_key(
                    pos_key(staker, asset),
                ),
            },
    {
        let key = position_key(staker, asset);
        match self.rewards.get(&key) {
            Some(s) => Ok(*s),
            None => Err(Error::RewardInfoNotFound),
        }
    }

    /// Owner-only partial update of the configuration.
    pub fn update_config(
        &mut self,
        caller: u64,
        owner: Option<u64>,
        premium_min_update_interval: Option<u64>,
        short_reward_bound: Option<ShortRewardBound>,
    ) -> (r: Result<(), Error>)
        requires
            old(self).wf(),
            (short_reward_bound matches Some(b) ==> b.weight.raw <= DEC_SCALE),
        ensures
            r is Ok <==> caller == old(self).config.owner,
            r is Ok ==> final(self).config == (Config {
                owner: (match owner {
                    Some(o) => o,
                    None => old(self).config.owner,
                }),
                premium_min_update_interval: (match premium_min_update_interval {
                    Some(x) => x,
                    None => old(self).config.premium_min_update_interval,
                }),
                short_reward_bound: (match short_reward_bound {
                    Some(b) => b,
                    None => old(self).config.short_reward_bound,
                }),
                ..old(self).config
            }),
            final(self).pools == old(self).pools,
            final(self).rewards == old(self).rewards,
            r is Err ==> r == Err::<(), Error>(Error::Unauthorized) && *final(self) == *old(self),
            final(self).wf(),
    {
        if caller != self.config.owner {
            return Err(Error::Unauthorized);
        }
        if let Some(o) = owner {
            self.config.owner = o;
        }
        if let Some(x) = premium_min_update_interval {
            self.config.premium_min_update_interval = x;
        }
        if let Some(b) = short_reward_bound {
            self.config.short_reward_bound = b;
        }
        Ok(())
    }

    /// Owner-only registration of a new asset with its staking token; each
    /// asset can be registered once.
    pub fn register_asset(&mut self, caller: u64, asset: u64, staking_token: u64) -> (r: Result<
        (),
        Error,
    >)
        requires
            old(self).wf(),
        ensures
            r is Ok <==> caller == old(self).config.owner && !old(self).pools@.contains_key(asset),
            r is Ok ==> final(self).pools@ == old(self).pools@.insert(
                asset,
                PoolInfo::spec_new(staking_token),
            ),
            r is Err ==> *final(self) == *old(self) && r == Err::<(), Error>(
                if caller != old(self).config.owner {
                    Error::Unauthorized
                } else {
                    Error::AlreadyRegistered
                },
            ),
            final(self).config == old(self).config,
            final(self).rewards == old(self).rewards,
            final(self).wf(),
    {
        if caller != self.config.owner {
            return Err(Error::Unauthorized);
        }
        if self.pools.contains_key(&asset) {
            return Err(Error::AlreadyRegistered);
        }
        let pool = PoolInfo::new(staking_token);
        self.pools.insert(asset, pool);
        proof {
            assert forall|staker: u64, a2: u64|
                #[trigger] self.rewards@.contains_key(pos_key(staker, a2))
                    implies self.pools@.contains_key(a2) && staker_wf(
                    self.pools@[a2],
                    self.rewards@[pos_key(staker, a2)],
                ) by {
                assert(old(self).rewards@.contains_key(pos_key(staker, a2)));
                assert(a2 != asset);
            }
        }
        Ok(())
    }

    /// Owner-only deprecation of an asset's staking token: snapshot the
    /// reward index, remember the old token, zero the bonded total and swap
    /// in the new token. Single-shot per asset.
    pub fn deprecate_staking_token(&mut self, caller: u64, asset: u64, new_staking_token: u64) -> (r:
        Result<(), Error>)
        requires
            old(self).wf(),
        ensures
            r is Ok <==> caller == old(self).config.owner && old(self).pools@.contains_key(asset)
                && old(self).pools@[asset].migration is NotMigrated,
            r is Ok ==> final(self).pools@ == old(self).pools@.insert(
                asset,
                crate::migration::spec_deprecate(old(self).pools@[asset], new_staking_token),
            ),
            r is Err ==> *final(self) == *old(self) && r == Err::<(), Error>(
                if caller != old(self).config.owner {
                    Error::Unauthorized
                } else if !old(self).pools@.contains_key(asset) {
                    Error::PoolNotFound
                } else {
                    Error::AlreadyMigrated
                },
            ),
            final(self).config == old(self).config,
            final(self).rewards == old(self).rewards,
            final(self).wf(),
    {
        if caller != self.config.owner {
            return Err(Error::Unauthorized);
        }
        let mut pool = match self.pools.get(&asset) {
            Some(p) => *p,
            None => {
                return Err(Error::PoolNotFound);
            },
        };
        match crate::migration::deprecate_pool(&mut pool, new_staking_token) {
            Ok(()) => {},
            Err(e) => {
                return Err(e);
            },
        }
        self.pools.insert(asset, pool);
        proof {
            lemma_wf_after_pool_update(*old(self), *self, asset);
        }
        Ok(())
    }

    /// One-time upgrade hook: deprecate an asset's staking token on behalf
    /// of the owner.
    pub fn migrate(&mut self, asset: u64, new_staking_token: u64) -> (r: Result<(), Error>)
        requires
            old(self).wf(),
        ensures
            r is Ok <==> old(self).pools@.contains_key(asset)
                && old(self).pools@[asset].migration is NotMigrated,
            r is Ok ==> final(self).pools@ == old(self).pools@.insert(
                asset,
                crate::migration::spec_deprecate(old(self).pools@[asset], new_staking_token),
            ),
            r is Err ==> *final(self) == *old(self) && r == Err::<(), Error>(
                if !old(self).pools@.contains_key(asset) {
                    Error::PoolNotFound
                } else {
                    Error::AlreadyMigrated
                },
            ),
            final(self).config == old(self).config,
            final(self).rewards == old(self).rewards,
            final(self).wf(),
    {
        let owner = self.config.owner;
        self.deprecate_staking_token(owner, asset, new_staking_token)
    }

    /// Bond `amount` staking tokens for `staker` in `asset`'s pool, arriving
    /// from the `sender_token` contract's transfer hook. Custody of the
    /// tokens has already moved on the host side. A deprecated sender token,
    /// or a still-dormant position, is redirected to the pool's new staking
    /// token.
    pub fn bond(&mut self, staker: u64, asset: u64, sender_token: u64, amount: u128) -> (r: Result<
        (),
        Error,
    >)
        requires
            old(self).wf(),
            amount > 0,
            old(self).pools@.contains_key(asset) ==> bond_fits(
                old(self).pools@[asset],
                old(self).spec_position_or_new(staker, asset),
                amount,
            ),
        ensures
            r is Ok <==> old(self).pools@.contains_key(asset) && spec_check_bond_token(
                old(self).pools@[asset],
                sender_token,
            ) is Ok && !is_dormant(
                old(self).pools@[asset],
                old(self).spec_position_or_new(staker, asset),
            ),
            r is Ok ==> ({
                let pool = old(self).pools@[asset];
                let s = old(self).spec_position_or_new(staker, asset);
                &&& final(self).pools@ == old(self).pools@.insert(
                    asset,
                    spec_bond(pool, s, amount).0,
                )
                &&& final(self).rewards@ == old(self).rewards@.insert(
                    pos_key(staker, asset),
                    spec_bond(pool, s, amount).1,
                )
            }),
            r is Err ==> *final(self) == *old(self) && r == (if !old(self).pools@.contains_key(
                asset,
            ) {
                Err::<(), Error>(Error::PoolNotFound)
            } else if spec_check_bond_token(old(self).pools@[asset], sender_token) is Err {
                spec_check_bond_token(old(self).pools@[asset], sender_token)
            } else {
                Err::<(), Error>(
                    Error::StakingTokenMigrated {
                        new_staking_token: old(self).pools@[asset].staking_token,
                    },
                )
            }),
            final(self).config == old(self).config,
            final(self).wf(),
    {
        let mut pool = match self.pools.get(&asset) {
            Some(p) => *p,
            None => {
                return Err(Error::PoolNotFound);
            },
        };
        match check_bond_token(&pool, sender_token) {
            Ok(()) => {},
            Err(e) => {
                return Err(e);
            },
        }
        let key = position_key(staker, asset);
        let mut s = match self.rewards.get(&key) {
            Some(x) => *x,
            None => RewardInfo::new(&pool),
        };
        let dormant = match pool.migration {
            MigrationState::Migrated { index_snapshot: _, deprecated_staking_token } => s
                .staking_token == deprecated_staking_token && s.staking_token
                != pool.staking_token,
            MigrationState::NotMigrated => false,
        };
        if dormant {
            return Err(Error::StakingTokenMigrated { new_staking_token: pool.staking_token });
        }
        crate::staking::bond(&mut pool, &mut s, amount);
        self.pools.insert(asset, pool);
        self.rewards.insert(key, s);
        proof {
            lemma_wf_after_position_update(*old(self), *self, staker, asset);
        }
        Ok(())
    }

    /// Unbond `amount` staking tokens of `staker` from `asset`'s pool,
    /// settling a dormant position against the migration snapshot. Returning
    /// the tokens is the host's transfer; an emptied position is destroyed.
    pub fn unbond(&mut self, staker: u64, asset: u64, amount: u128) -> (r: Result<(), Error>)
        requires
            old(self).wf(),
            old(self).pools@.contains_key(asset) && old(self).rewards@.contains_key(
                pos_key(staker, asset),
            ) ==> checkpoint_bond_fits(
                old(self).pools@[asset],
                old(self).rewards@[pos_key(staker, asset)],
            ),
        ensures
            r is Ok <==> old(self).pools@.contains_key(asset) && old(self).rewards@.contains_key(
                pos_key(staker, asset),
            ) && amount <= old(self).rewards@[pos_key(staker, asset)].bond_amount && (!is_dormant(
                old(self).pools@[asset],
                old(self).rewards@[pos_key(staker, asset)],
            ) ==> amount <= old(self).pools@[asset].total_bond_amount),
            r is Ok ==> ({
                let pool = old(self).pools@[asset];
                let s = old(self).rewards@[pos_key(staker, asset)];
                let s2 = spec_unbond(pool, s, amount).1;
                &&& final(self).pools@ == old(self).pools@.insert(
                    asset,
                    spec_unbond(pool, s, amount).0,
                )
                &&& final(self).rewards@ == (if s2.bond_amount == 0 && s2.short_amount == 0
                    && s2.pending_reward == 0 {
                    old(self).rewards@.remove(pos_key(staker, asset))
                } else {
                    old(self).rewards@.insert(pos_key(staker, asset), s2)
                })
            }),
            r is Err ==> *final(self) == *old(self) && r == Err::<(), Error>(
                if !old(self).pools@.contains_key(asset) {
                    Error::PoolNotFound
                } else if !old(self).rewards@.contains_key(pos_key(staker, asset)) {
                    Error::RewardInfoNotFound
                } else {
                    Error::InsufficientBond
                },
            ),
            final(self).config == old(self).config,
            final(self).wf(),
    {
        let mut pool = match self.pools.get(&asset) {
            Some(p) => *p,
            None => {
                return Err(Error::PoolNotFound);
            },
        };
        let key = position_key(staker, asset);
        let mut s = match self.rewards.get(&key) {
            Some(x) => *x,
            None => {
                return Err(Error::RewardInfoNotFound);
            },
        };
        match crate::staking::unbond(&mut pool, &mut s, amount) {
            Ok(()) => {},
            Err(e) => {
                return Err(e);
            },
        }
        self.pools.insert(asset, pool);
        if s.is_empty() {
            self.rewards.remove(&key);
            proof {
                lemma_wf_after_position_removal(*old(self), *self, staker, asset);
            }
        } else {
            self.rewards.insert(key, s);
            proof {
                lemma_wf_after_position_update(*old(self), *self, staker, asset);
            }
        }
        Ok(())
    }

    /// Withdraw all realized and realizable reward of `staker` in `asset`'s
    /// pool. Returns the amount owed; paying it out is the host's transfer.
    /// An emptied position is destroyed.
    pub fn withdraw_reward(&mut self, staker: u64, asset: u64) -> (r: Result<u128, Error>)
        requires
            old(self).wf(),
            old(self).pools@.contains_key(asset) && old(self).rewards@.contains_key(
                pos_key(staker, asset),
            ) ==> withdraw_fits(
                old(self).pools@[asset],
                old(self).rewards@[pos_key(staker, asset)],
            ),
        ensures
            r is Ok <==> old(self).pools@.contains_key(asset) && old(self).rewards@.contains_key(
                pos_key(staker, asset),
            ),
            r is Ok ==> ({
                let pool = old(self).pools@[asset];
                let s = old(self).rewards@[pos_key(staker, asset)];
                let s2 = (RewardInfo {
                    pending_reward: 0,
                    ..spec_checkpoint_short(pool, spec_checkpoint_bond(pool, s))
                });
                &&& r == Ok::<u128, Error>(spec_realizable(pool, s) as u128)
                &&& final(self).pools == old(self).pools
                &&& final(self).rewards@ == (if s2.bond_amount == 0 && s2.short_amount == 0 {
                    old(self).rewards@.remove(pos_key(staker, asset))
                } else {
                    old(self).rewards@.insert(pos_key(staker, asset), s2)
                })
            }),
            r is Err ==> *final(self) == *old(self) && r == Err::<u128, Error>(
                if !old(self).pools@.contains_key(asset) {
                    Error::PoolNotFound
                } else {
                    Error::RewardInfoNotFound
                },
            ),
            final(self).config == old(self).config,
            final(self).wf(),
    {
        let pool = match self.pools.get(&asset) {
            Some(p) => *p,
            None => {
                return Err(Error::PoolNotFound);
            },
        };
        let key = position_key(staker, asset);
        let mut s = match self.rewards.get(&key) {
            Some(x) => *x,
            None => {
                return Err(Error::RewardInfoNotFound);
            },
        };
        let amount = withdraw(&pool, &mut s);
        proof {
            assert(old(self).pools@.insert(asset, old(self).pools@[asset]) =~= old(self).pools@);
        }
        if s.is_empty() {
            self.rewards.remove(&key);
            proof {
                lemma_wf_after_position_removal(*old(self), *self, staker, asset);
            }
        } else {
            self.rewards.insert(key, s);
            proof {
                lemma_wf_after_position_update(*old(self), *self, staker, asset);
            }
        }
        Ok(amount)
    }

    /// Increase the short exposure of `staker` in `asset`'s pool; restricted
    /// to the configured mint contract.
    pub fn increase_short_token(&mut self, caller: u64, staker: u64, asset: u64, amount: u128) -> (
        r: Result<(), Error>)
        requires
            old(self).wf(),
            old(self).pools@.contains_key(asset) ==> increase_short_fits(
                old(self).pools@[asset],
                old(self).spec_position_or_new(staker, asset),
                amount,
            ),
        ensures
            r is Ok <==> caller == old(self).config.mint_contract && old(
                self,
            ).pools@.contains_key(asset),
            r is Ok ==> ({
                let pool = old(self).pools@[asset];
                let s = old(self).spec_position_or_new(staker, asset);
                &&& final(self).pools@ == old(self).pools@.insert(
                    asset,
                    spec_increase_short(pool, s, amount).0,
                )
                &&& final(self).rewards@ == old(self).rewards@.insert(
                    pos_key(staker, asset),
                    spec_increase_short(pool, s, amount).1,
                )
            }),
            r is Err ==> *final(self) == *old(self) && r == Err::<(), Error>(
                if caller != old(self).config.mint_contract {
                    Error::Unauthorized
                } else {
                    Error::PoolNotFound
                },
            ),
            final(self).config == old(self).config,
            final(self).wf(),
    {
        if caller != self.config.mint_contract {
            return Err(Error::Unauthorized);
        }
        let mut pool = match self.pools.get(&asset) {
            Some(p) => *p,
            None => {
                return Err(Error::PoolNotFound);
            },
        };
        let key = position_key(staker, asset);
        let mut s = match self.rewards.get(&key) {
            Some(x) => *x,
            None => RewardInfo::new(&pool),
        };
        crate::staking::increase_short(&mut pool, &mut s, amount);
        self.pools.insert(asset, pool);
        self.rewards.insert(key, s);
        proof {
            lemma_wf_after_position_update(*old(self), *self, staker, asset);
        }
        Ok(())
    }

    /// Decrease the short exposure of `staker` in `asset`'s pool; restricted
    /// to the configured mint contract. An emptied position is destroyed.
    pub fn decrease_short_token(&mut self, caller: u64, staker: u64, asset: u64, amount: u128) -> (
        r: Result<(), Error>)
        requires
            old(self).wf(),
            old(self).pools@.contains_key(asset) && old(self).rewards@.contains_key(
                pos_key(staker, asset),
            ) ==> checkpoint_short_fits(
                old(self).pools@[asset],
                old(self).rewards@[pos_key(staker, asset)],
            ),
        ensures
            r is Ok <==> caller == old(self).config.mint_contract && old(
                self,
            ).pools@.contains_key(asset) && old(self).rewards@.contains_key(pos_key(staker, asset))
                && amount <= old(self).rewards@[pos_key(staker, asset)].short_amount && amount
                <= old(self).pools@[asset].total_short_amount,
            r is Ok ==> ({
                let pool = old(self).pools@[asset];
                let s = old(self).rewards@[pos_key(staker, asset)];
                let s2 = spec_decrease_short(pool, s, amount).1;
                &&& final(self).pools@ == old(self).pools@.insert(
                    asset,
                    spec_decrease_short(pool, s, amount).0,
                )
                &&& final(self).rewards@ == (if s2.bond_amount == 0 && s2.short_amount == 0
                    && s2.pending_reward == 0 {
                    old(self).rewards@.remove(pos_key(staker, asset))
                } else {
                    old(self).rewards@.insert(pos_key(staker, asset), s2)
                })
            }),
            r is Err ==> *final(self) == *old(self) && r == Err::<(), Error>(
                if caller != old(self).config.mint_contract {
                    Error::Unauthorized
                } else if !old(self).pools@.contains_key(asset) {
                    Error::PoolNotFound
                } else if !old(self).rewards@.contains_key(pos_key(staker, asset)) {
                    Error::RewardInfoNotFound
                } else {
                    Error::InsufficientShort
                },
            ),
            final(self).config == old(self).config,
            final(self).wf(),
    {
        if caller != self.config.mint_contract {
            return Err(Error::Unauthorized);
        }
        let mut pool = match self.pools.get(&asset) {
            Some(p) => *p,
            None => {
                return Err(Error::PoolNotFound);
            },
        };
        let key = position_key(staker, asset);
        let mut s = match self.rewards.get(&key) {
            Some(x) => *x,
            None => {
                return Err(Error::RewardInfoNotFound);
            },
        };
        match crate::staking::decrease_short(&mut pool, &mut s, amount) {
            Ok(()) => {},
            Err(e) => {
                return Err(e);
            },
        }
        self.pools.insert(asset, pool);
        if s.is_empty() {
            self.rewards.remove(&key);
            proof {
                lemma_wf_after_position_removal(*old(self), *self, staker, asset);
            }
        } else {
            self.rewards.insert(key, s);
            proof {
                lemma_wf_after_position_update(*old(self), *self, staker, asset);
            }
        }
        Ok(())
    }

    /// Deposit reward, split over the listed assets; only the configured
    /// reward token contract's transfer hook may invoke it, and the listed
    /// amounts must sum to the transferred total. Assets are listed at most
    /// once, as entries of a mapping.
    #[verifier::loop_isolation(false)]
    pub fn deposit_reward(
        &mut self,
        caller: u64,
        rewards_list: &Vec<(u64, u128)>,
        total_amount: u128,
    ) -> (r: Result<(), Error>)
        requires
            old(self).wf(),
            spec_sum(rewards_list@) <= u128::MAX,
            forall|i: int, j: int|
                0 <= i < j < rewards_list@.len() ==> (#[trigger] rewards_list@[i]).0 != (
                #[trigger] rewards_list@[j]).0,
            forall|j: int|
                0 <= j < rewards_list@.len() && old(self).pools@.contains_key(
                    (#[trigger] rewards_list@[j]).0,
                ) ==> deposit_fits(old(self).pools@[rewards_list@[j].0], rewards_list@[j].1),
        ensures
            r is Ok <==> caller == old(self).config.reward_token && spec_sum(rewards_list@)
                == total_amount && (forall|j: int|
                0 <= j < rewards_list@.len() ==> old(self).pools@.contains_key(
                    (#[trigger] rewards_list@[j]).0,
                )),
            r is Ok ==> ({
                &&& final(self).pools@.dom() == old(self).pools@.dom()
                &&& forall|j: int|
                    0 <= j < rewards_list@.len() ==> final(self).pools@[(
                    #[trigger] rewards_list@[j]).0] == spec_deposit_pool(
                        old(self).pools@[rewards_list@[j].0],
                        rewards_list@[j].1,
                    )
                &&& forall|a: u64|
                    old(self).pools@.contains_key(a) && !listed_prefix(
                        rewards_list@,
                        rewards_list@.len() as int,
                        a,
                    ) ==> final(self).pools@[a] == old(self).pools@[a]
                &&& final(self).rewards == old(self).rewards
            }),
            r is Err ==> *final(self) == *old(self) && r == Err::<(), Error>(
                if caller != old(self).config.reward_token {
                    Error::Unauthorized
                } else if spec_sum(rewards_list@) != total_amount {
                    Error::RewardAmountMismatch
                } else {
                    Error::PoolNotFound
                },
            ),
            final(self).config == old(self).config,
            final(self).wf(),
    {
        if caller != self.config.reward_token {
            return Err(Error::Unauthorized);
        }
        let n = rewards_list.len();
        let mut sum: u128 = 0;
        let mut i: usize = 0;
        while i < n
            invariant
                0 <= i <= n,
                sum == spec_sum(rewards_list@.take(i as int)),
            decreases n - i,
        {
            proof {
                lemma_sum_take_succ(rewards_list@, i as int);
                lemma_sum_take_le(rewards_list@, i as int + 1);
            }
            let entry = rewards_list[i];
            sum = sum + entry.1;
            i = i + 1;
        }
        proof {
            assert(rewards_list@.take(n as int) =~= rewards_list@);
        }
        if sum != total_amount {
            return Err(Error::RewardAmountMismatch);
        }
        let mut i: usize = 0;
        while i < n
            invariant
                0 <= i <= n,
                forall|j: int|
                    0 <= j < i ==> old(self).pools@.contains_key((#[trigger] rewards_list@[j]).0),
            decreases n - i,
        {
            let entry = rewards_list[i];
            if !self.pools.contains_key(&entry.0) {
                return Err(Error::PoolNotFound);
            }
            i = i + 1;
        }
        let mut i: usize = 0;
        while i < n
            invariant
                0 <= i <= n,
                self.config == old(self).config,
                self.rewards == old(self).rewards,
                self.pools@.dom() == old(self).pools@.dom(),
                forall|j: int|
                    0 <= j < i ==> self.pools@[(#[trigger] rewards_list@[j]).0]
                        == spec_deposit_pool(
                        old(self).pools@[rewards_list@[j].0],
                        rewards_list@[j].1,
                    ),
                forall|a: u64|
                    old(self).pools@.contains_key(a) && !listed_prefix(rewards_list@, i as int, a)
                        ==> self.pools@[a] == old(self).pools@[a],
                forall|a: u64|
                    self.pools@.contains_key(a) ==> (#[trigger] self.pools@[a]).wf(),
                forall|a: u64, x: RewardInfo|
                    old(self).pools@.contains_key(a) && #[trigger] staker_wf(
                        old(self).pools@[a],
                        x,
                    ) ==> staker_wf(self.pools@[a], x),
            decreases n - i,
        {
            let entry = rewards_list[i];
            proof {
                assert(!listed_prefix(rewards_list@, i as int, entry.0)) by {
                    if listed_prefix(rewards_list@, i as int, entry.0) {
                        let j = choose|j: int|
                            0 <= j < i && (#[trigger] rewards_list@[j]).0 == entry.0;
                        assert(rewards_list@[j].0 == rewards_list@[i as int].0);
                    }
                }
            }
            let mut p = match self.pools.get(&entry.0) {
                Some(x) => *x,
                None => PoolInfo::new(0),
            };
            proof {
                assert(p == old(self).pools@[entry.0]);
                assert forall|x: RewardInfo| #[trigger] staker_wf(p, x) implies staker_wf(
                    spec_deposit_pool(p, entry.1),
                    x,
                ) by {
                    lemma_deposit_preserves_staker_wf(p, entry.1, x);
                }
            }
            deposit_reward_pool(&mut p, entry.1);
            self.pools.insert(entry.0, p);
            proof {
                assert(self.pools@.dom() =~= old(self).pools@.dom());
                assert forall|a: u64|
                    old(self).pools@.contains_key(a) && !listed_prefix(
                        rewards_list@,
                        i as int + 1,
                        a,
                    ) implies self.pools@[a] == old(self).pools@[a] by {
                    assert((rewards_list@[i as int]).0 == entry.0);
                    assert(a != entry.0);
                    assert(!listed_prefix(rewards_list@, i as int, a)) by {
                        if listed_prefix(rewards_list@, i as int, a) {
                            let j = choose|j: int|
                                0 <= j < i && (#[trigger] rewards_list@[j]).0 == a;
                            assert((rewards_list@[j]).0 == a);
                        }
                    }
                }
            }
            i = i + 1;
        }
        proof {
            assert forall|st: u64, a2: u64|
                #[trigger] self.rewards@.contains_key(pos_key(st, a2))
                    implies self.pools@.contains_key(a2) && staker_wf(
                    self.pools@[a2],
                    self.rewards@[pos_key(st, a2)],
                ) by {
                assert(old(self).rewards@.contains_key(pos_key(st, a2)));
                assert(staker_wf(old(self).pools@[a2], old(self).rewards@[pos_key(st, a2)]));
            }
        }
        Ok(())
    }

    /// Record fresh premium signals for the listed assets, rate-limited per
    /// pool by the configured minimum update interval. The premium values
    /// come from the host's oracle-versus-pool price comparison; the whole
    /// batch fails if any listed pool is unknown or was adjusted too
    /// recently. Assets are listed at most once.
    #[verifier::loop_isolation(false)]
    pub fn adjust_premium(&mut self, now: u64, premiums: &Vec<(u64, Dec)>) -> (r: Result<
        (),
        Error,
    >)
        requires
            old(self).wf(),
            forall|i: int, j: int|
                0 <= i < j < premiums@.len() ==> (#[trigger] premiums@[i]).0 != (
                #[trigger] premiums@[j]).0,
        ensures
            r is Ok <==> (forall|j: int|
                0 <= j < premiums@.len() ==> old(self).pools@.contains_key(
                    (#[trigger] premiums@[j]).0,
                ) && now >= old(self).pools@[premiums@[j].0].premium_updated_time + old(
                    self,
                ).config.premium_min_update_interval),
            r is Ok ==> ({
                &&& final(self).pools@.dom() == old(self).pools@.dom()
                &&& forall|j: int|
                    0 <= j < premiums@.len() ==> final(self).pools@[(#[trigger] premiums@[j]).0]
                        == spec_adjust_premium(
                        old(self).pools@[premiums@[j].0],
                        old(self).config,
                        now,
                        premiums@[j].1,
                    )
                &&& forall|a: u64|
                    old(self).pools@.contains_key(a) && !listed_prefix(
                        premiums@,
                        premiums@.len() as int,
                        a,
                    ) ==> final(self).pools@[a] == old(self).pools@[a]
                &&& final(self).rewards == old(self).rewards
            }),
            r is Err ==> *final(self) == *old(self) && (r == Err::<(), Error>(Error::PoolNotFound)
                || r == Err::<(), Error>(Error::PremiumTooEarly)),
            r == Err::<(), Error>(Error::PoolNotFound) ==> (exists|j: int|
                0 <= j < premiums@.len() && !old(self).pools@.contains_key(
                    (#[trigger] premiums@[j]).0,
                )),
            r == Err::<(), Error>(Error::PremiumTooEarly) ==> (exists|j: int|
                0 <= j < premiums@.len() && old(self).pools@.contains_key(
                    (#[trigger] premiums@[j]).0,
                ) && now < old(self).pools@[premiums@[j].0].premium_updated_time + old(
                    self,
                ).config.premium_min_update_interval),
            final(self).config == old(self).config,
            final(self).wf(),
    {
        let n = premiums.len();
        let mut i: usize = 0;
        while i < n
            invariant
                0 <= i <= n,
                forall|j: int|
                    0 <= j < i ==> old(self).pools@.contains_key((#[trigger] premiums@[j]).0)
                        && now >= old(self).pools@[premiums@[j].0].premium_updated_time + old(
                        self,
                    ).config.premium_min_update_interval,
            decreases n - i,
        {
            let entry = premiums[i];
            let p = match self.pools.get(&entry.0) {
                Some(x) => *x,
                None => {
                    return Err(Error::PoolNotFound);
                },
            };
            if p.premium_updated_time > now || now - p.premium_updated_time
                < self.config.premium_min_update_interval {
                return Err(Error::PremiumTooEarly);
            }
            i = i + 1;
        }
        let cfg = self.config;
        let mut i: usize = 0;
        while i < n
            invariant
                0 <= i <= n,
                self.config == old(self).config,
                self.rewards == old(self).rewards,
                self.pools@.dom() == old(self).pools@.dom(),
                forall|j: int|
                    0 <= j < i ==> self.pools@[(#[trigger] premiums@[j]).0]
                        == spec_adjust_premium(
                        old(self).pools@[premiums@[j].0],
                        old(self).config,
                        now,
                        premiums@[j].1,
                    ),
                forall|a: u64|
                    old(self).pools@.contains_key(a) && !listed_prefix(premiums@, i as int, a)
                        ==> self.pools@[a] == old(self).pools@[a],
                forall|a: u64|
                    self.pools@.contains_key(a) ==> (#[trigger] self.pools@[a]).wf(),
                forall|a: u64, x: RewardInfo|
                    old(self).pools@.contains_key(a) && #[trigger] staker_wf(
                        old(self).pools@[a],
                        x,
                    ) ==> staker_wf(self.pools@[a], x),
            decreases n - i,
        {
            let entry = premiums[i];
            proof {
                assert(!listed_prefix(premiums@, i as int, entry.0)) by {
                    if listed_prefix(premiums@, i as int, entry.0) {
                        let j = choose|j: int| 0 <= j < i && (#[trigger] premiums@[j]).0 == entry.0;
                        assert(premiums@[j].0 == premiums@[i as int].0);
                    }
                }
            }
            let mut p = match self.pools.get(&entry.0) {
                Some(x) => *x,
                None => PoolInfo::new(0),
            };
            proof {
                assert(p == old(self).pools@[entry.0]);
            }
            match adjust_premium_pool(&mut p, &cfg, now, entry.1) {
                Ok(()) => {},
                Err(e) => {
                    return Err(e);
                },
            }
            self.pools.insert(entry.0, p);
            proof {
                assert(self.pools@.dom() =~= old(self).pools@.dom());
                assert forall|a: u64|
                    old(self).pools@.contains_key(a) && !listed_prefix(premiums@, i as int + 1, a)
                    implies self.pools@[a] == old(self).pools@[a] by {
                    assert((premiums@[i as int]).0 == entry.0);
                    assert(a != entry.0);
                    assert(!listed_prefix(premiums@, i as int, a)) by {
                        if listed_prefix(premiums@, i as int, a) {
                            let j = choose|j: int| 0 <= j < i && (#[trigger] premiums@[j]).0 == a;
                            assert((premiums@[j]).0 == a);
                        }
                    }
                }
            }
            i = i + 1;
        }
        proof {
            assert forall|st: u64, a2: u64|
                #[trigger] self.rewards@.contains_key(pos_key(st, a2))
                    implies self.pools@.contains_key(a2) && staker_wf(
                    self.pools@[a2],
                    self.rewards@[pos_key(st, a2)],
                ) by {
                assert(old(self).rewards@.contains_key(pos_key(st, a2)));
                assert(staker_wf(old(self).pools@[a2], old(self).rewards@[pos_key(st, a2)]));
            }
        }
        Ok(())
    }
}

/// Sum of the per-asset amounts of a deposit list.
pub open spec fn spec_sum(s: Seq<(u64, u128)>) -> int
    decreases s.len(),
{
    if s.len() == 0 {
        0
    } else {
        spec_sum(s.drop_last()) + s.last().1
    }
}

/// Whether `asset` occurs among the first `n` entries of a keyed list.
pub open spec fn listed_prefix<T>(s: Seq<(u64, T)>, n: int, asset: u64) -> bool {
    exists|j: int| 0 <= j < n && (#[trigger] s[j]).0 == asset
}

/// One more entry extends the prefix sum by that entry's amount.
pub proof fn lemma_sum_take_succ(s: Seq<(u64, u128)>, i: int)
    requires
        0 <= i < s.len(),
    ensures
        spec_sum(s.take(i + 1)) == spec_sum(s.take(i)) + s[i].1,
{
    assert(s.take(i + 1).drop_last() =~= s.take(i));
}

/// A prefix sum never exceeds the whole sum.
pub proof fn lemma_sum_take_le(s: Seq<(u64, u128)>, i: int)
    requires
        0 <= i <= s.len(),
    ensures
        spec_sum(s.take(i)) <= spec_sum(s),
    decreases s.len() - i,
{
    if i == s.len() {
        assert(s.take(i) =~= s);
    } else {
        lemma_sum_take_succ(s, i);
        lemma_sum_take_le(s, i + 1);
    }
}

/// Well-formedness survives replacing one pool, provided the replacement is
/// well-formed and keeps every position of that pool well-formed.
pub proof fn lemma_wf_after_pool_update(pre: Staking, post: Staking, asset: u64)
    requires
        pre.wf(),
        pre.pools@.contains_key(asset),
        post.config.wf(),
        post.pools@ == pre.pools@.insert(asset, post.pools@[asset]),
        post.rewards@ == pre.rewards@,
        post.pools@[asset].wf(),
        forall|x: RewardInfo| #[trigger] staker_wf(pre.pools@[asset], x) ==> staker_wf(
            post.pools@[asset],
            x,
        ),
    ensures
        post.wf(),
{
    assert forall|staker: u64, a2: u64|
        #[trigger] post.rewards@.contains_key(pos_key(staker, a2)) implies post.pools@.contains_key(
        a2,
    ) && staker_wf(post.pools@[a2], post.rewards@[pos_key(staker, a2)]) by {
        assert(pre.rewards@.contains_key(pos_key(staker, a2)));
        assert(staker_wf(pre.pools@[a2], pre.rewards@[pos_key(staker, a2)]));
    }
}

/// Well-formedness survives replacing one pool together with one of its
/// positions, under the same conditions plus well-formedness of the new
/// position.
pub proof fn lemma_wf_after_position_update(pre: Staking, post: Staking, staker: u64, asset: u64)
    requires
        pre.wf(),
        pre.pools@.contains_key(asset),
        post.config.wf(),
        post.pools@ == pre.pools@.insert(asset, post.pools@[asset]),
        post.rewards@ == pre.rewards@.insert(
            pos_key(staker, asset),
            post.rewards@[pos_key(staker, asset)],
        ),
        post.pools@[asset].wf(),
        staker_wf(post.pools@[asset], post.rewards@[pos_key(staker, asset)]),
        forall|x: RewardInfo| #[trigger] staker_wf(pre.pools@[asset], x) ==> staker_wf(
            post.pools@[asset],
            x,
        ),
    ensures
        post.wf(),
{
    assert forall|st: u64, a2: u64|
        #[trigger] post.rewards@.contains_key(pos_key(st, a2)) implies post.pools@.contains_key(a2)
        && staker_wf(post.pools@[a2], post.rewards@[pos_key(st, a2)]) by {
        if pos_key(st, a2) == pos_key(staker, asset) {
            lemma_pos_key_injective(st, a2, staker, asset);
        } else {
            assert(pre.rewards@.contains_key(pos_key(st, a2)));
            assert(staker_wf(pre.pools@[a2], pre.rewards@[pos_key(st, a2)]));
        }
    }
}

/// Well-formedness survives removing one position and replacing its pool,
/// provided the replacement keeps the remaining positions well-formed.
pub proof fn lemma_wf_after_position_removal(pre: Staking, post: Staking, staker: u64, asset: u64)
    requires
        pre.wf(),
        pre.pools@.contains_key(asset),
        post.config.wf(),
        post.pools@ == pre.pools@.insert(asset, post.pools@[asset]),
        post.rewards@ == pre.rewards@.remove(pos_key(staker, asset)),
        post.pools@[asset].wf(),
        forall|x: RewardInfo| #[trigger] staker_wf(pre.pools@[asset], x) ==> staker_wf(
            post.pools@[asset],
            x,
        ),
    ensures
        post.wf(),
{
    assert forall|st: u64, a2: u64|
        #[trigger] post.rewards@.contains_key(pos_key(st, a2)) implies post.pools@.contains_key(a2)
        && staker_wf(post.pools@[a2], post.rewards@[pos_key(st, a2)]) by {
        assert(pre.rewards@.contains_key(pos_key(st, a2)));
        assert(staker_wf(pre.pools@[a2], pre.rewards@[pos_key(st, a2)]));
    }
}

} // verus!
