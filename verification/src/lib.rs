//! A verified staking ledger: per-account staked balances together with a
//! running total that always equals the sum of all recorded balances.

pub mod ledger;
pub mod sums;
