//! End-to-end scenarios over the contract state.

use oraiswap_staking::contract::Staking;
use oraiswap_staking::dec::{Dec, DEC_SCALE};
use oraiswap_staking::state::{Error, MigrationState, ShortRewardBound};

const OWNER: u64 = 1;
const REWARD_TOKEN: u64 = 2;
const MINT: u64 = 3;
const ORACLE: u64 = 4;
const FACTORY: u64 = 5;
const DENOM: u64 = 6;
const ASSET: u64 = 10;
const STAKING_TOKEN: u64 = 20;
const NEW_STAKING_TOKEN: u64 = 21;
const STAKER_X: u64 = 100;
const STAKER_Y: u64 = 200;

fn fresh() -> Staking {
    let mut st = Staking::new(OWNER, REWARD_TOKEN, MINT, ORACLE, FACTORY, DENOM, 100, None);
    st.register_asset(OWNER, ASSET, STAKING_TOKEN).unwrap();
    st
}

#[test]
fn bond_deposit_withdraw_round_trip() {
    // Bond 100, deposit 50: the index grows by 50/100 = 0.5 and the staker
    // withdraws exactly the 50 deposited.
    let mut st = fresh();
    st.bond(STAKER_X, ASSET, STAKING_TOKEN, 100).unwrap();
    let pool = st.query_pool_info(ASSET).unwrap();
    assert_eq!(pool.total_bond_amount, 100);

    st.deposit_reward(REWARD_TOKEN, &vec![(ASSET, 50)], 50).unwrap();
    let pool = st.query_pool_info(ASSET).unwrap();
    assert_eq!(pool.reward_index.raw, DEC_SCALE / 2);
    assert_eq!(pool.pending_reward, 0);

    let got = st.query_reward_info(STAKER_X, ASSET).unwrap();
    assert_eq!(got.bond_amount, 100);
    assert_eq!(got.index.raw, 0);

    assert_eq!(st.withdraw_reward(STAKER_X, ASSET), Ok(50));
    // Nothing further to withdraw right away.
    assert_eq!(st.withdraw_reward(STAKER_X, ASSET), Ok(0));
}

#[test]
fn deposit_without_stake_stays_pending() {
    // Deposit 50 while nothing is bonded: the index stays put and the whole
    // amount is carried as pending reward.
    let mut st = fresh();
    st.deposit_reward(REWARD_TOKEN, &vec![(ASSET, 50)], 50).unwrap();
    let pool = st.query_pool_info(ASSET).unwrap();
    assert_eq!(pool.reward_index.raw, 0);
    assert_eq!(pool.pending_reward, 50);

    // A later bond followed by a deposit round that does not touch this
    // asset grants nothing retroactively: the 50 stays pending.
    st.bond(STAKER_X, ASSET, STAKING_TOKEN, 100).unwrap();
    st.deposit_reward(REWARD_TOKEN, &vec![], 0).unwrap();
    let pool = st.query_pool_info(ASSET).unwrap();
    assert_eq!(pool.reward_index.raw, 0);
    assert_eq!(pool.pending_reward, 50);

    // Only a deposit for this asset while bond > 0 folds it in.
    st.deposit_reward(REWARD_TOKEN, &vec![(ASSET, 0)], 0).unwrap();
    let pool = st.query_pool_info(ASSET).unwrap();
    assert_eq!(pool.reward_index.raw, DEC_SCALE / 2);
    assert_eq!(pool.pending_reward, 0);
}

#[test]
fn truncation_remainder_carries_forward() {
    // Deposit 10 over a bond of 3: the index takes floor(10/3) precision in
    // fractional units and the consumed amount leaves exactly 1 unit
    // pending (3 * 3.333... truncates to 9).
    let mut st = fresh();
    st.bond(STAKER_X, ASSET, STAKING_TOKEN, 3).unwrap();
    st.deposit_reward(REWARD_TOKEN, &vec![(ASSET, 10)], 10).unwrap();
    let pool = st.query_pool_info(ASSET).unwrap();
    assert_eq!(pool.reward_index.raw, 10 * DEC_SCALE / 3);
    assert_eq!(pool.pending_reward, 1);
    assert_eq!(st.withdraw_reward(STAKER_X, ASSET), Ok(9));
}

#[test]
fn sub_unit_credit_is_carried_by_the_index() {
    // Two stakers of one unit each, deposit of one token: the index gains
    // half a token per unit, which neither staker can realize yet; a second
    // deposit completes the half units and both stakers collect exactly one
    // token each. Nothing is lost and nothing is duplicated.
    let mut st = fresh();
    st.bond(STAKER_X, ASSET, STAKING_TOKEN, 1).unwrap();
    st.bond(STAKER_Y, ASSET, STAKING_TOKEN, 1).unwrap();

    st.deposit_reward(REWARD_TOKEN, &vec![(ASSET, 1)], 1).unwrap();
    let pool = st.query_pool_info(ASSET).unwrap();
    assert_eq!(pool.reward_index.raw, DEC_SCALE / 2);
    assert_eq!(pool.pending_reward, 0);
    assert_eq!(st.withdraw_reward(STAKER_X, ASSET), Ok(0));

    st.deposit_reward(REWARD_TOKEN, &vec![(ASSET, 1)], 1).unwrap();
    assert_eq!(st.query_pool_info(ASSET).unwrap().reward_index.raw, DEC_SCALE);
    assert_eq!(st.withdraw_reward(STAKER_X, ASSET), Ok(1));
    assert_eq!(st.withdraw_reward(STAKER_Y, ASSET), Ok(1));
}

#[test]
fn premium_adjustment_rate_limited() {
    // A second adjustment inside the minimum update interval fails and
    // changes nothing.
    let mut st = fresh();
    st.adjust_premium(100, &vec![(ASSET, Dec::percent(8))]).unwrap();
    let pool = st.query_pool_info(ASSET).unwrap();
    assert_eq!(pool.premium_rate.raw, Dec::percent(8).raw);
    assert_eq!(pool.short_reward_weight.raw, Dec::percent(40).raw);
    assert_eq!(pool.premium_updated_time, 100);

    let r = st.adjust_premium(150, &vec![(ASSET, Dec::percent(1))]);
    assert_eq!(r, Err(Error::PremiumTooEarly));
    let pool = st.query_pool_info(ASSET).unwrap();
    assert_eq!(pool.premium_rate.raw, Dec::percent(8).raw);
    assert_eq!(pool.short_reward_weight.raw, Dec::percent(40).raw);
    assert_eq!(pool.premium_updated_time, 100);

    // At or below the threshold the weight reverts to its baseline.
    st.adjust_premium(200, &vec![(ASSET, Dec::percent(7))]).unwrap();
    let pool = st.query_pool_info(ASSET).unwrap();
    assert_eq!(pool.short_reward_weight.raw, 0);
    assert_eq!(pool.premium_updated_time, 200);
}

#[test]
fn short_reward_weight_splits_deposits() {
    // With the premium above the threshold, 40% of a deposit routes to the
    // short side; with no short exposure it stays short-pending.
    let mut st = fresh();
    st.bond(STAKER_X, ASSET, STAKING_TOKEN, 100).unwrap();
    st.adjust_premium(100, &vec![(ASSET, Dec::percent(8))]).unwrap();
    st.deposit_reward(REWARD_TOKEN, &vec![(ASSET, 100)], 100).unwrap();
    let pool = st.query_pool_info(ASSET).unwrap();
    assert_eq!(pool.short_pending_reward, 40);
    assert_eq!(pool.short_reward_index.raw, 0);
    // The long side distributed 60 over 100 bonded units.
    assert_eq!(pool.reward_index.raw, 6 * DEC_SCALE / 10);
    assert_eq!(pool.pending_reward, 0);
}

#[test]
fn short_positions_accrue_their_stream() {
    let mut st = fresh();
    st.adjust_premium(100, &vec![(ASSET, Dec::percent(8))]).unwrap();
    st.increase_short_token(MINT, STAKER_Y, ASSET, 40).unwrap();
    let pool = st.query_pool_info(ASSET).unwrap();
    assert_eq!(pool.total_short_amount, 40);

    st.deposit_reward(REWARD_TOKEN, &vec![(ASSET, 100)], 100).unwrap();
    let pool = st.query_pool_info(ASSET).unwrap();
    // 40 went short: 40 / 40 short units = index 1; 60 stayed long-pending
    // since nothing is bonded.
    assert_eq!(pool.short_reward_index.raw, DEC_SCALE);
    assert_eq!(pool.short_pending_reward, 0);
    assert_eq!(pool.pending_reward, 60);

    assert_eq!(st.withdraw_reward(STAKER_Y, ASSET), Ok(40));
    st.decrease_short_token(MINT, STAKER_Y, ASSET, 40).unwrap();
    let pool = st.query_pool_info(ASSET).unwrap();
    assert_eq!(pool.total_short_amount, 0);
    // The emptied position is destroyed.
    assert_eq!(st.query_reward_info(STAKER_Y, ASSET), Err(Error::RewardInfoNotFound));
}

#[test]
fn withdraw_collects_both_streams() {
    // One staker holds both a bond and short exposure; a single withdrawal
    // pays the long and the short accrual together.
    let mut st = fresh();
    st.bond(STAKER_X, ASSET, STAKING_TOKEN, 100).unwrap();
    st.increase_short_token(MINT, STAKER_X, ASSET, 50).unwrap();
    st.adjust_premium(100, &vec![(ASSET, Dec::percent(8))]).unwrap();
    st.deposit_reward(REWARD_TOKEN, &vec![(ASSET, 100)], 100).unwrap();
    // 60 long over 100 bonded and 40 short over 50 short units.
    assert_eq!(st.withdraw_reward(STAKER_X, ASSET), Ok(100));
    let pool = st.query_pool_info(ASSET).unwrap();
    assert_eq!(pool.pending_reward, 0);
    assert_eq!(pool.short_pending_reward, 0);
}

#[test]
fn migration_freezes_dormant_accrual() {
    // A staker bonded entirely before the migration is paid with the index
    // trajectory up to the snapshot and accrues nothing afterwards; a fresh
    // bond under the new token starts from the live index.
    let mut st = fresh();
    st.bond(STAKER_X, ASSET, STAKING_TOKEN, 100).unwrap();
    st.deposit_reward(REWARD_TOKEN, &vec![(ASSET, 50)], 50).unwrap();

    st.deprecate_staking_token(OWNER, ASSET, NEW_STAKING_TOKEN).unwrap();
    let pool = st.query_pool_info(ASSET).unwrap();
    assert_eq!(pool.staking_token, NEW_STAKING_TOKEN);
    assert_eq!(pool.total_bond_amount, 0);
    match pool.migration {
        MigrationState::Migrated { index_snapshot, deprecated_staking_token } => {
            assert_eq!(index_snapshot.raw, DEC_SCALE / 2);
            assert_eq!(deprecated_staking_token, STAKING_TOKEN);
        }
        MigrationState::NotMigrated => panic!("pool must be migrated"),
    }

    // Bonding with the deprecated token is redirected to the new one.
    let r = st.bond(STAKER_Y, ASSET, STAKING_TOKEN, 10);
    assert_eq!(r, Err(Error::StakingTokenMigrated { new_staking_token: NEW_STAKING_TOKEN }));

    // Rewards deposited while nobody is bonded under the new token stay
    // pending; the index (and the snapshot) do not move.
    st.deposit_reward(REWARD_TOKEN, &vec![(ASSET, 30)], 30).unwrap();
    assert_eq!(st.query_pool_info(ASSET).unwrap().reward_index.raw, DEC_SCALE / 2);

    // A new staker bonds under the new token and later rewards flow to it.
    st.bond(STAKER_Y, ASSET, NEW_STAKING_TOKEN, 100).unwrap();
    st.deposit_reward(REWARD_TOKEN, &vec![(ASSET, 10)], 10).unwrap();
    let pool = st.query_pool_info(ASSET).unwrap();
    assert_eq!(pool.reward_index.raw, 9 * DEC_SCALE / 10);
    assert_eq!(pool.pending_reward, 0);

    // The dormant staker still gets exactly the pre-migration 50.
    assert_eq!(st.withdraw_reward(STAKER_X, ASSET), Ok(50));
    // The new staker gets the post-migration 40.
    assert_eq!(st.withdraw_reward(STAKER_Y, ASSET), Ok(40));

    // The dormant position unbonds without touching the new total.
    st.unbond(STAKER_X, ASSET, 100).unwrap();
    let pool = st.query_pool_info(ASSET).unwrap();
    assert_eq!(pool.total_bond_amount, 100);
    // Fully emptied, the dormant position is destroyed ...
    assert_eq!(st.query_reward_info(STAKER_X, ASSET), Err(Error::RewardInfoNotFound));

    // ... and re-bonding under the new token starts a fresh baseline at the
    // live index.
    st.bond(STAKER_X, ASSET, NEW_STAKING_TOKEN, 50).unwrap();
    let info = st.query_reward_info(STAKER_X, ASSET).unwrap();
    assert_eq!(info.index.raw, 9 * DEC_SCALE / 10);
    assert_eq!(info.staking_token, NEW_STAKING_TOKEN);
}

#[test]
fn second_deprecation_is_refused() {
    let mut st = fresh();
    st.deprecate_staking_token(OWNER, ASSET, NEW_STAKING_TOKEN).unwrap();
    let before = st.query_pool_info(ASSET).unwrap();
    let r = st.deprecate_staking_token(OWNER, ASSET, 22);
    assert_eq!(r, Err(Error::AlreadyMigrated));
    assert_eq!(st.query_pool_info(ASSET).unwrap(), before);
}

#[test]
fn unbond_settles_and_rebases() {
    let mut st = fresh();
    st.bond(STAKER_X, ASSET, STAKING_TOKEN, 100).unwrap();
    st.deposit_reward(REWARD_TOKEN, &vec![(ASSET, 50)], 50).unwrap();
    st.unbond(STAKER_X, ASSET, 60).unwrap();
    let pool = st.query_pool_info(ASSET).unwrap();
    assert_eq!(pool.total_bond_amount, 40);
    let info = st.query_reward_info(STAKER_X, ASSET).unwrap();
    assert_eq!(info.bond_amount, 40);
    // The unbond checkpointed the accrual: 50 realized, index caught up.
    assert_eq!(info.pending_reward, 50);
    assert_eq!(info.index.raw, DEC_SCALE / 2);
    // A second checkpoint realizes nothing further.
    assert_eq!(st.withdraw_reward(STAKER_X, ASSET), Ok(50));
}

#[test]
fn multi_asset_deposit_updates_each_pool() {
    let mut st = fresh();
    let other: u64 = 11;
    st.register_asset(OWNER, other, 23).unwrap();
    st.bond(STAKER_X, ASSET, STAKING_TOKEN, 10).unwrap();
    st.bond(STAKER_X, other, 23, 20).unwrap();
    st.deposit_reward(REWARD_TOKEN, &vec![(ASSET, 10), (other, 40)], 50).unwrap();
    assert_eq!(st.query_pool_info(ASSET).unwrap().reward_index.raw, DEC_SCALE);
    assert_eq!(st.query_pool_info(other).unwrap().reward_index.raw, 2 * DEC_SCALE);
}

#[test]
fn init_defaults_and_config_update() {
    let mut st = Staking::new(OWNER, REWARD_TOKEN, MINT, ORACLE, FACTORY, DENOM, 100, None);
    let cfg = st.query_config();
    assert_eq!(cfg.short_reward_bound.threshold.raw, Dec::percent(7).raw);
    assert_eq!(cfg.short_reward_bound.weight.raw, Dec::percent(40).raw);
    assert_eq!(cfg.premium_min_update_interval, 100);

    st.update_config(
        OWNER,
        Some(7),
        Some(3600),
        Some(ShortRewardBound { threshold: Dec::percent(5), weight: Dec::percent(20) }),
    )
    .unwrap();
    let cfg = st.query_config();
    assert_eq!(cfg.owner, 7);
    assert_eq!(cfg.premium_min_update_interval, 3600);
    assert_eq!(cfg.short_reward_bound.threshold.raw, Dec::percent(5).raw);
    // Only the named fields changed.
    assert_eq!(cfg.reward_token, REWARD_TOKEN);
    assert_eq!(cfg.base_denom, DENOM);
}

#[test]
fn migrate_runs_deprecation_as_owner() {
    let mut st = fresh();
    st.migrate(ASSET, NEW_STAKING_TOKEN).unwrap();
    let pool = st.query_pool_info(ASSET).unwrap();
    assert_eq!(pool.staking_token, NEW_STAKING_TOKEN);
    assert!(matches!(pool.migration, MigrationState::Migrated { .. }));
}
