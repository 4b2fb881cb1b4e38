use staking_contract::ledger::{StakingContract, StakingError};

#[test]
fn staking_works() {
    let caller: u64 = 1;
    let mut contract = StakingContract::new();
    contract.stake(caller, 100);
    assert_eq!(contract.get_stake(caller), 100);
    assert_eq!(contract.get_total_staked(), 100);
}

#[test]
fn unstaking_works() {
    let caller: u64 = 1;
    let mut contract = StakingContract::new();
    contract.stake(caller, 100);
    assert_eq!(contract.unstake(caller, 50), Ok(()));
    assert_eq!(contract.get_stake(caller), 50);
    assert_eq!(contract.get_total_staked(), 50);
}

#[test]
fn unstaking_fails_when_not_enough_staked() {
    let caller: u64 = 1;
    let mut contract = StakingContract::new();
    contract.stake(caller, 100);
    let failure = contract.unstake(caller, 150);
    assert_eq!(failure, Err(StakingError::InsufficientStake));
    assert_eq!(failure.unwrap_err().message(), "Not enough staked");
    assert_eq!(contract.get_stake(caller), 100);
    assert_eq!(contract.get_total_staked(), 100);
}

#[test]
fn new_ledger_has_zero_total() {
    let contract = StakingContract::new();
    assert_eq!(contract.get_total_staked(), 0);
}

#[test]
fn never_staked_account_reads_zero() {
    let mut contract = StakingContract::new();
    contract.stake(1, 100);
    assert_eq!(contract.get_stake(2), 0);
}

#[test]
fn two_callers_stake_independently() {
    let a: u64 = 1;
    let b: u64 = 2;
    let mut contract = StakingContract::new();
    contract.stake(a, 100);
    contract.stake(b, 100);
    assert_eq!(contract.get_total_staked(), 200);
    assert_eq!(contract.get_stake(a), 100);
    assert_eq!(contract.get_stake(b), 100);
}

#[test]
fn repeated_stakes_accumulate() {
    let caller: u64 = 7;
    let mut contract = StakingContract::new();
    contract.stake(caller, 30);
    contract.stake(caller, 12);
    assert_eq!(contract.get_stake(caller), 42);
    assert_eq!(contract.get_total_staked(), 42);
}

#[test]
fn staking_zero_changes_nothing() {
    let caller: u64 = 1;
    let mut contract = StakingContract::new();
    contract.stake(caller, 100);
    contract.stake(caller, 0);
    assert_eq!(contract.get_stake(caller), 100);
    assert_eq!(contract.get_total_staked(), 100);
}

#[test]
fn unstaking_exact_balance_empties_account() {
    let caller: u64 = 1;
    let mut contract = StakingContract::new();
    contract.stake(caller, 100);
    assert_eq!(contract.unstake(caller, 100), Ok(()));
    assert_eq!(contract.get_stake(caller), 0);
    assert_eq!(contract.get_total_staked(), 0);
}

#[test]
fn unstaking_from_account_that_never_staked_fails() {
    let mut contract = StakingContract::new();
    contract.stake(1, 100);
    assert_eq!(contract.unstake(2, 1), Err(StakingError::InsufficientStake));
    assert_eq!(contract.get_stake(2), 0);
    assert_eq!(contract.get_total_staked(), 100);
}

#[test]
fn unstaking_only_touches_the_caller() {
    let a: u64 = 1;
    let b: u64 = 2;
    let mut contract = StakingContract::new();
    contract.stake(a, 100);
    contract.stake(b, 60);
    assert_eq!(contract.unstake(a, 40), Ok(()));
    assert_eq!(contract.get_stake(a), 60);
    assert_eq!(contract.get_stake(b), 60);
    assert_eq!(contract.get_total_staked(), 120);
}
