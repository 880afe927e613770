//! Reward-accounting and position-tracking core of a liquidity-staking
//! module.
//!
//! Users bond staking tokens for a registered asset and accrue a share of a
//! reward pool through a cumulative reward-per-unit index; a parallel short
//! position mechanism earns a separately weighted reward stream whose weight
//! is driven by a market premium signal; and a migration mechanism lets the
//! operator replace an asset's staking token while freezing already-accrued
//! rewards behind an index snapshot.
//!
//! All index arithmetic is fixed-point with deterministic truncation, so that
//! replaying the same operations always yields bit-identical state. Identities
//! (addresses, tokens, denominations) are opaque integer ids; the surrounding
//! host is responsible for mapping real addresses onto ids and for token
//! custody.

pub mod contract;
pub mod dec;
pub mod laws;
pub mod migration;
pub mod rewards;
pub mod staking;
pub mod state;
