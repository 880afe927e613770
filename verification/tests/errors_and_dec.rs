//! Error taxonomy and decimal arithmetic checks.

use oraiswap_staking::contract::Staking;
use oraiswap_staking::dec::{Dec, DEC_PERCENT, DEC_SCALE};
use oraiswap_staking::state::Error;

const OWNER: u64 = 1;
const REWARD_TOKEN: u64 = 2;
const MINT: u64 = 3;
const ASSET: u64 = 10;
const STAKING_TOKEN: u64 = 20;
const STAKER: u64 = 100;

fn fresh() -> Staking {
    let mut st = Staking::new(OWNER, REWARD_TOKEN, MINT, 4, 5, 6, 100, None);
    st.register_asset(OWNER, ASSET, STAKING_TOKEN).unwrap();
    st
}

#[test]
fn dec_arithmetic_truncates() {
    assert_eq!(Dec::zero().raw, 0);
    assert_eq!(Dec::percent(7).raw, 7 * DEC_PERCENT);
    // from_ratio truncates towards zero.
    assert_eq!(Dec::from_ratio(1, 3).raw, 333_333_333_333_333_333);
    assert_eq!(Dec::from_ratio(2, 3).raw, 666_666_666_666_666_666);
    // mul_floor truncates the product back to whole units.
    assert_eq!(Dec::from_ratio(1, 3).mul_floor(100), 33);
    assert_eq!(Dec::from_ratio(2, 3).mul_floor(100), 66);
    assert_eq!(Dec::from_ratio(1, 2).add(Dec::from_ratio(1, 2)).raw, DEC_SCALE);
    assert!(Dec::percent(8).gt(Dec::percent(7)));
    assert!(!Dec::percent(7).gt(Dec::percent(7)));
    assert!(Dec::zero().is_zero());
}

#[test]
fn owner_gated_operations_reject_others() {
    let mut st = fresh();
    assert_eq!(st.update_config(99, Some(99), None, None), Err(Error::Unauthorized));
    assert_eq!(st.register_asset(99, 11, 21), Err(Error::Unauthorized));
    assert_eq!(st.deprecate_staking_token(99, ASSET, 21), Err(Error::Unauthorized));
    // State untouched by the failed calls.
    assert_eq!(st.query_config().owner, OWNER);
    assert_eq!(st.query_pool_info(11), Err(Error::PoolNotFound));
}

#[test]
fn register_twice_is_refused() {
    let mut st = fresh();
    assert_eq!(st.register_asset(OWNER, ASSET, 21), Err(Error::AlreadyRegistered));
    assert_eq!(st.query_pool_info(ASSET).unwrap().staking_token, STAKING_TOKEN);
}

#[test]
fn bond_requires_the_staking_token() {
    let mut st = fresh();
    assert_eq!(st.bond(STAKER, ASSET, 99, 10), Err(Error::Unauthorized));
    assert_eq!(st.bond(STAKER, 11, STAKING_TOKEN, 10), Err(Error::PoolNotFound));
}

#[test]
fn deposit_gates_sender_and_total() {
    let mut st = fresh();
    assert_eq!(st.deposit_reward(99, &vec![(ASSET, 50)], 50), Err(Error::Unauthorized));
    assert_eq!(
        st.deposit_reward(REWARD_TOKEN, &vec![(ASSET, 50)], 49),
        Err(Error::RewardAmountMismatch)
    );
    assert_eq!(
        st.deposit_reward(REWARD_TOKEN, &vec![(ASSET, 20), (11, 30)], 50),
        Err(Error::PoolNotFound)
    );
    // Nothing was applied by the failed batch.
    assert_eq!(st.query_pool_info(ASSET).unwrap().pending_reward, 0);
}

#[test]
fn unbond_more_than_bonded_is_refused() {
    let mut st = fresh();
    st.bond(STAKER, ASSET, STAKING_TOKEN, 100).unwrap();
    assert_eq!(st.unbond(STAKER, ASSET, 101), Err(Error::InsufficientBond));
    assert_eq!(st.unbond(STAKER, 11, 1), Err(Error::PoolNotFound));
    assert_eq!(st.unbond(999, ASSET, 1), Err(Error::RewardInfoNotFound));
    assert_eq!(st.query_reward_info(STAKER, ASSET).unwrap().bond_amount, 100);
}

#[test]
fn short_operations_are_mint_gated() {
    let mut st = fresh();
    assert_eq!(st.increase_short_token(99, STAKER, ASSET, 10), Err(Error::Unauthorized));
    assert_eq!(st.decrease_short_token(99, STAKER, ASSET, 10), Err(Error::Unauthorized));
    assert_eq!(st.increase_short_token(MINT, STAKER, 11, 10), Err(Error::PoolNotFound));
    st.increase_short_token(MINT, STAKER, ASSET, 10).unwrap();
    assert_eq!(st.decrease_short_token(MINT, STAKER, ASSET, 11), Err(Error::InsufficientShort));
    assert_eq!(st.decrease_short_token(MINT, 999, ASSET, 1), Err(Error::RewardInfoNotFound));
}

#[test]
fn withdraw_needs_a_position() {
    let mut st = fresh();
    assert_eq!(st.withdraw_reward(STAKER, 11), Err(Error::PoolNotFound));
    assert_eq!(st.withdraw_reward(STAKER, ASSET), Err(Error::RewardInfoNotFound));
}

#[test]
fn premium_of_unknown_pool_is_refused() {
    let mut st = fresh();
    assert_eq!(
        st.adjust_premium(100, &vec![(11, Dec::percent(1))]),
        Err(Error::PoolNotFound)
    );
}
