use contract_tools::account::AccountId;
use contract_tools::env::Env;
use contract_tools::env::PromiseAction;
use contract_tools::nep145::Nep145;
use contract_tools::nep145::Nep145Controller;
use contract_tools::nep145::StorageBalance;
use contract_tools::nep145::StorageBalanceBounds;
use contract_tools::nep145::StorageDepositError;
use contract_tools::nep145::StorageLockError;
use contract_tools::nep145::StorageUnlockError;
use contract_tools::nep145::StorageUnregisterError;
use contract_tools::nep145::StorageWithdrawError;

fn acct(name: &str) -> AccountId {
    AccountId::new(name.to_string()).unwrap()
}

fn alice() -> AccountId {
    acct("alice.near")
}

const ONE_NEAR: u128 = 1_000_000_000_000_000_000_000_000;
const BYTE_COST: u128 = 10_000_000_000_000_000_000;

#[test]
fn storage_sanity_check() {
    let one_near = ONE_NEAR;
    let byte_cost = BYTE_COST;

    let mut contract = Env::new(alice(), acct("contract"));
    Nep145Controller::set_storage_balance_bounds(
        &mut contract,
        &StorageBalanceBounds { min: 0, max: None },
    );

    contract.attached_deposit = one_near;

    Nep145::storage_deposit(&mut contract, None, None).unwrap();

    assert_eq!(
        Nep145::storage_balance_of(&contract, &alice()).unwrap(),
        Some(StorageBalance { total: one_near, available: one_near }),
    );

    contract.attached_deposit = 0;

    // Using storage for 1000 entries of 8 bytes each locks its fee.
    Nep145Controller::lock_storage(&mut contract, &alice(), 8 * 1000 * byte_cost)
        .unwrap()
        .unwrap();

    let first = Nep145::storage_balance_of(&contract, &alice()).unwrap().unwrap();

    assert_eq!(first.total, one_near);
    assert!(one_near - (first.available + 8 * 1000 * byte_cost) < 100 * byte_cost);

    // Growing the stored data from 1000 to 2000 entries locks the same
    // amount again.
    Nep145Controller::lock_storage(&mut contract, &alice(), 8 * 1000 * byte_cost)
        .unwrap()
        .unwrap();

    let second = Nep145::storage_balance_of(&contract, &alice()).unwrap().unwrap();

    assert_eq!(second.total, one_near);
    assert_eq!(second.available, first.available - 8 * 1000 * byte_cost);
}

#[test]
fn deposit_is_clamped_and_excess_refunded() {
    let mut env = Env::new(alice(), acct("contract"));
    Nep145Controller::set_storage_balance_bounds(
        &mut env,
        &StorageBalanceBounds { min: 100, max: Some(1_000) },
    );

    env.attached_deposit = 5_000;
    let balance = Nep145::storage_deposit(&mut env, None, None).unwrap();

    assert_eq!(balance.total, 1_000);
    assert_eq!(balance.available, 1_000);

    assert_eq!(env.promises.len(), 1);
    let chain = &env.promises[0];
    assert_eq!(chain.len(), 1);
    assert_eq!(chain[0].receiver.as_str(), "alice.near");
    match chain[0].action {
        PromiseAction::Transfer { amount } => assert_eq!(amount, 4_000),
        _ => panic!("expected a transfer"),
    }
}

#[test]
fn registration_only_deposits_the_minimum() {
    let mut env = Env::new(alice(), acct("contract"));
    Nep145Controller::set_storage_balance_bounds(
        &mut env,
        &StorageBalanceBounds { min: 250, max: None },
    );

    env.attached_deposit = 900;
    let balance = Nep145::storage_deposit(&mut env, None, Some(true)).unwrap();

    assert_eq!(balance.total, 250);
    assert_eq!(balance.available, 250);
}

#[test]
fn deposit_below_minimum_is_refused() {
    let mut env = Env::new(alice(), acct("contract"));
    Nep145Controller::set_storage_balance_bounds(
        &mut env,
        &StorageBalanceBounds { min: 500, max: None },
    );

    let r = Nep145Controller::deposit_to_storage_account(&mut env, &alice(), 499).unwrap();
    assert!(matches!(r, Err(StorageDepositError::MinimumBalanceUnderrun)));

    let r = Nep145Controller::deposit_to_storage_account(&mut env, &alice(), 500).unwrap();
    assert!(r.is_ok());
}

#[test]
fn deposit_above_maximum_is_refused() {
    let mut env = Env::new(alice(), acct("contract"));
    Nep145Controller::set_storage_balance_bounds(
        &mut env,
        &StorageBalanceBounds { min: 0, max: Some(1_000) },
    );

    let r = Nep145Controller::deposit_to_storage_account(&mut env, &alice(), 1_001).unwrap();
    assert!(matches!(r, Err(StorageDepositError::MaximumBalanceOverrun)));
}

#[test]
fn withdraw_and_lock_respect_availability() {
    let mut env = Env::new(alice(), acct("contract"));

    Nep145Controller::deposit_to_storage_account(&mut env, &alice(), 1_000)
        .unwrap()
        .unwrap();
    Nep145Controller::lock_storage(&mut env, &alice(), 700).unwrap().unwrap();

    let r = Nep145Controller::withdraw_from_storage_account(&mut env, &alice(), 400).unwrap();
    assert!(matches!(r, Err(StorageWithdrawError::ExcessiveWithdrawal)));

    let r = Nep145Controller::lock_storage(&mut env, &alice(), 400).unwrap();
    assert!(matches!(r, Err(StorageLockError::ExcessiveLock)));

    let balance = Nep145Controller::withdraw_from_storage_account(&mut env, &alice(), 300)
        .unwrap()
        .unwrap();
    assert_eq!(balance.total, 700);
    assert_eq!(balance.available, 0);
}

#[test]
fn unlock_cannot_exceed_total() {
    let mut env = Env::new(alice(), acct("contract"));

    Nep145Controller::deposit_to_storage_account(&mut env, &alice(), 1_000)
        .unwrap()
        .unwrap();
    Nep145Controller::lock_storage(&mut env, &alice(), 600).unwrap().unwrap();

    let r = Nep145Controller::unlock_storage(&mut env, &alice(), 700).unwrap();
    assert!(matches!(r, Err(StorageUnlockError::ExcessiveUnlock)));

    let balance = Nep145Controller::unlock_storage(&mut env, &alice(), 600).unwrap().unwrap();
    assert_eq!(balance.available, 1_000);
}

#[test]
fn unregister_with_locked_balance_is_refused() {
    let mut env = Env::new(alice(), acct("contract"));

    Nep145Controller::deposit_to_storage_account(&mut env, &alice(), 1_000)
        .unwrap()
        .unwrap();
    Nep145Controller::lock_storage(&mut env, &alice(), 1).unwrap().unwrap();

    let r = Nep145Controller::unregister_storage_account(&mut env, &alice()).unwrap();
    assert!(matches!(
        r,
        Err(StorageUnregisterError::UnregisterWithLockedBalance)
    ));

    Nep145Controller::unlock_storage(&mut env, &alice(), 1).unwrap().unwrap();
    let refund = Nep145Controller::unregister_storage_account(&mut env, &alice())
        .unwrap()
        .unwrap();
    assert_eq!(refund, 1_000);
    assert!(Nep145::storage_balance_of(&env, &alice()).unwrap().is_none());
}

#[test]
fn unregister_when_never_registered_returns_false() {
    let mut env = Env::new(alice(), acct("contract"));
    env.attached_deposit = 1;
    let removed = Nep145::storage_unregister::<()>(&mut env, None).unwrap();
    assert!(!removed);
}

#[test]
fn errors_for_unregistered_accounts() {
    let mut env = Env::new(alice(), acct("contract"));

    let r = Nep145Controller::withdraw_from_storage_account(&mut env, &alice(), 1).unwrap();
    assert!(matches!(r, Err(StorageWithdrawError::AccountNotRegistered)));

    let r = Nep145Controller::lock_storage(&mut env, &alice(), 1).unwrap();
    assert!(matches!(r, Err(StorageLockError::AccountNotRegistered)));

    let r = Nep145Controller::unregister_storage_account(&mut env, &alice()).unwrap();
    assert!(matches!(r, Err(StorageUnregisterError::AccountNotRegistered)));
}
