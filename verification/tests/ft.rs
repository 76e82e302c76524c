use contract_tools::account::AccountId;
use contract_tools::env::Env;
use contract_tools::hook::Hook;
use contract_tools::hook::HostAbort;
use contract_tools::nep141::ft_balance_of;
use contract_tools::nep141::ft_total_supply;
use contract_tools::nep141::ft_transfer;
use contract_tools::nep141::Nep141Burn;
use contract_tools::nep141::Nep141Mint;
use contract_tools::nep141::Nep141Transfer;
use contract_tools::nep141::DepositError;
use contract_tools::nep141::Nep141Controller;
use contract_tools::nep141::TransferError;
use contract_tools::nep141::WithdrawError;
use contract_tools::nep145::Nep145Controller;
use contract_tools::owner::OnlyOwner;
use contract_tools::owner::Owner;
use contract_tools::pause::Pausable;
use contract_tools::pause::Pause;
use contract_tools::slot::Slot;

fn acct(name: &str) -> AccountId {
    AccountId::new(name.to_string()).unwrap()
}

fn test_env(predecessor: &str) -> Env {
    Env::new(acct(predecessor), acct("contract"))
}

const ONE_NEAR: u128 = 1_000_000_000_000_000_000_000_000;

#[test]
fn mint_and_transfer() {
    let alice = acct("alice");
    let bob = acct("bob");

    let mut env = test_env("alice");
    Owner::init(&mut env, &alice).unwrap();

    Nep145Controller::deposit_to_storage_account(&mut env, &alice, ONE_NEAR)
        .unwrap()
        .unwrap();
    Nep145Controller::deposit_to_storage_account(&mut env, &bob, ONE_NEAR)
        .unwrap()
        .unwrap();

    Nep141Controller::mint::<OnlyOwner>(&mut env, &Nep141Mint::new(100, alice.clone()))
        .unwrap()
        .unwrap();

    assert_eq!(ft_balance_of(&env, &alice).unwrap(), "100");
    assert_eq!(ft_balance_of(&env, &bob).unwrap(), "0");

    env.predecessor = alice.clone();
    env.attached_deposit = 1;
    ft_transfer::<OnlyOwner>(&mut env, bob.clone(), 10, None).unwrap();

    assert_eq!(ft_balance_of(&env, &alice).unwrap(), "90");
    assert_eq!(ft_balance_of(&env, &bob).unwrap(), "10");
}

#[test]
#[should_panic = "Owner only"]
fn mint_fail_not_owner() {
    let alice = acct("alice");
    let bob = acct("bob");

    let mut env = test_env("alice");
    Owner::init(&mut env, &alice).unwrap();

    Nep145Controller::deposit_to_storage_account(&mut env, &alice, ONE_NEAR)
        .unwrap()
        .unwrap();
    Nep145Controller::deposit_to_storage_account(&mut env, &bob, ONE_NEAR)
        .unwrap()
        .unwrap();

    env.predecessor = bob.clone();

    Nep141Controller::mint::<OnlyOwner>(&mut env, &Nep141Mint::new(100, bob.clone()))
        .unwrap()
        .unwrap();
}

#[test]
#[should_panic = "Owner only"]
fn transfer_fail_not_owner() {
    let alice = acct("alice");
    let bob = acct("bob");

    let mut env = test_env("alice");
    Owner::init(&mut env, &alice).unwrap();

    Nep145Controller::deposit_to_storage_account(&mut env, &alice, ONE_NEAR)
        .unwrap()
        .unwrap();
    Nep145Controller::deposit_to_storage_account(&mut env, &bob, ONE_NEAR)
        .unwrap()
        .unwrap();

    Nep141Controller::deposit_unchecked(&mut env, &bob, 100)
        .unwrap()
        .unwrap();

    env.predecessor = bob.clone();
    env.attached_deposit = 1;
    ft_transfer::<OnlyOwner>(&mut env, alice.clone(), 10, None).unwrap();
}

/// Records how many log lines the wrapped operation emitted into a raw slot.
struct TransferHook;

impl Hook<Env, Nep141Transfer> for TransferHook {
    fn hook<R, F: FnOnce(&mut Env) -> Result<R, HostAbort>>(
        contract: &mut Env,
        _args: &Nep141Transfer,
        f: F,
    ) -> Result<R, HostAbort> {
        let before = contract.logs.len();
        let r = f(contract);
        let delta = contract.logs.len() - before;
        println!("Log delta: {delta}");
        Slot::new(b"usage".to_vec()).write(&mut contract.store, vec![delta as u8]);
        r
    }
}

#[test]
fn hooks_modify_state() {
    let alice = acct("alice");
    let bob = acct("bob_account");

    let mut env = test_env("alice");

    Nep145Controller::deposit_to_storage_account(&mut env, &alice, ONE_NEAR / 100)
        .unwrap()
        .unwrap();
    Nep145Controller::deposit_to_storage_account(&mut env, &bob, ONE_NEAR / 100)
        .unwrap()
        .unwrap();

    Nep141Controller::deposit_unchecked(&mut env, &alice, 100)
        .unwrap()
        .unwrap();

    env.predecessor = alice.clone();
    env.attached_deposit = 1;
    ft_transfer::<TransferHook>(&mut env, bob.clone(), 50, None).unwrap();

    let usage = Slot::new(b"usage".to_vec()).read(&env.store).unwrap();
    assert_ne!(usage[0], 0);
}

#[test]
#[should_panic = "Disallowed while contract is paused"]
fn hooks_can_terminate_on_error() {
    let alice = acct("alice");
    let bob = acct("bob_account");

    let mut env = test_env("alice");

    Nep141Controller::deposit_unchecked(&mut env, &alice, 100)
        .unwrap()
        .unwrap();

    env.predecessor = alice.clone();
    env.attached_deposit = 1;

    Pause::pause(&mut env);

    ft_transfer::<Pausable>(&mut env, bob.clone(), 50, None).unwrap();
}

#[test]
fn mint_and_transfer_events_are_exact() {
    let alice = acct("alice");
    let bob = acct("bob");

    let mut env = test_env("alice");

    Nep141Controller::mint::<()>(&mut env, &Nep141Mint::new(100, alice.clone()))
        .unwrap()
        .unwrap();

    assert_eq!(ft_balance_of(&env, &alice).unwrap(), "100");
    assert_eq!(ft_total_supply(&env).unwrap(), "100");

    env.predecessor = alice.clone();
    env.attached_deposit = 1;
    ft_transfer::<()>(&mut env, bob.clone(), 40, None).unwrap();

    assert_eq!(ft_balance_of(&env, &alice).unwrap(), "60");
    assert_eq!(ft_balance_of(&env, &bob).unwrap(), "40");

    assert_eq!(env.logs.len(), 2);
    assert_eq!(
        env.logs[0],
        "EVENT_JSON:{\"standard\":\"nep141\",\"version\":\"1.0.0\",\"event\":\"ft_mint\",\
         \"data\":[{\"owner_id\":\"alice\",\"amount\":\"100\"}]}",
    );
    assert_eq!(
        env.logs[1],
        "EVENT_JSON:{\"standard\":\"nep141\",\"version\":\"1.0.0\",\"event\":\"ft_transfer\",\
         \"data\":[{\"old_owner_id\":\"alice\",\"new_owner_id\":\"bob\",\"amount\":\"40\"}]}",
    );

    let transfer_events = env
        .logs
        .iter()
        .filter(|l| l.contains("\"event\":\"ft_transfer\""))
        .count();
    assert_eq!(transfer_events, 1);
}

#[test]
fn memo_is_escaped_and_appended() {
    let alice = acct("alice");

    let mut env = test_env("alice");

    let mint = Nep141Mint::new(7, alice.clone()).memo("a \"quoted\"\nmemo".to_string());
    Nep141Controller::mint::<()>(&mut env, &mint).unwrap().unwrap();

    assert_eq!(
        env.logs[0],
        "EVENT_JSON:{\"standard\":\"nep141\",\"version\":\"1.0.0\",\"event\":\"ft_mint\",\
         \"data\":[{\"owner_id\":\"alice\",\"amount\":\"7\",\"memo\":\"a \\\"quoted\\\"\\nmemo\"}]}",
    );
}

#[test]
fn zero_amount_is_a_no_op() {
    let alice = acct("alice");
    let bob = acct("bob");

    let mut env = test_env("alice");

    Nep141Controller::mint::<()>(&mut env, &Nep141Mint::new(0, alice.clone()))
        .unwrap()
        .unwrap();
    Nep141Controller::deposit_unchecked(&mut env, &alice, 0).unwrap().unwrap();
    Nep141Controller::withdraw_unchecked(&mut env, &alice, 0).unwrap().unwrap();
    Nep141Controller::burn::<()>(&mut env, &Nep141Burn::new(0, alice.clone()))
        .unwrap()
        .unwrap();
    let transfer = Nep141Transfer::new(0, alice.clone(), bob.clone());
    Nep141Controller::transfer::<()>(&mut env, &transfer).unwrap().unwrap();

    assert_eq!(ft_balance_of(&env, &alice).unwrap(), "0");
    assert_eq!(ft_total_supply(&env).unwrap(), "0");
    assert_eq!(env.logs.len(), 0);
}

#[test]
fn transfer_to_self_keeps_balance_and_logs_event() {
    let alice = acct("alice");

    let mut env = test_env("alice");

    Nep141Controller::deposit_unchecked(&mut env, &alice, 25).unwrap().unwrap();

    let transfer = Nep141Transfer::new(5, alice.clone(), alice.clone());
    Nep141Controller::transfer::<()>(&mut env, &transfer).unwrap().unwrap();

    assert_eq!(ft_balance_of(&env, &alice).unwrap(), "25");
    assert_eq!(env.logs.len(), 1);
    assert!(env.logs[0].contains("\"event\":\"ft_transfer\""));
}

#[test]
fn overflow_and_underflow_errors_carry_values() {
    let alice = acct("alice");
    let bob = acct("bob");

    let mut env = test_env("alice");

    Nep141Controller::deposit_unchecked(&mut env, &alice, u128::MAX)
        .unwrap()
        .unwrap();

    match Nep141Controller::deposit_unchecked(&mut env, &alice, 1).unwrap() {
        Err(DepositError::BalanceOverflow(e)) => {
            assert_eq!(e.balance, u128::MAX);
            assert_eq!(e.amount, 1);
        },
        other => panic!("unexpected: {other:?}"),
    }

    match Nep141Controller::deposit_unchecked(&mut env, &bob, 1).unwrap() {
        Err(DepositError::TotalSupplyOverflow(e)) => {
            assert_eq!(e.total_supply, u128::MAX);
            assert_eq!(e.amount, 1);
        },
        other => panic!("unexpected: {other:?}"),
    }

    match Nep141Controller::withdraw_unchecked(&mut env, &bob, 5).unwrap() {
        Err(WithdrawError::BalanceUnderflow(e)) => {
            assert_eq!(e.balance, 1);
            assert_eq!(e.amount, 5);
        },
        other => panic!("unexpected: {other:?}"),
    }

    let transfer = Nep141Transfer::new(2, bob.clone(), alice.clone());
    match Nep141Controller::transfer::<()>(&mut env, &transfer).unwrap() {
        Err(TransferError::BalanceUnderflow(e)) => {
            assert_eq!(e.balance, 1);
            assert_eq!(e.amount, 2);
        },
        other => panic!("unexpected: {other:?}"),
    }

    let transfer = Nep141Transfer::new(1, bob.clone(), alice.clone());
    match Nep141Controller::transfer::<()>(&mut env, &transfer).unwrap() {
        Err(TransferError::BalanceOverflow(e)) => {
            assert_eq!(e.balance, u128::MAX);
            assert_eq!(e.amount, 1);
        },
        other => panic!("unexpected: {other:?}"),
    }
}

#[test]
fn deposit_then_withdraw_restores_state() {
    let alice = acct("alice");

    let mut env = test_env("alice");

    Nep141Controller::deposit_unchecked(&mut env, &alice, 10).unwrap().unwrap();
    let balance_before = ft_balance_of(&env, &alice).unwrap();
    let supply_before = ft_total_supply(&env).unwrap();

    Nep141Controller::deposit_unchecked(&mut env, &alice, 7).unwrap().unwrap();
    Nep141Controller::withdraw_unchecked(&mut env, &alice, 7).unwrap().unwrap();

    assert_eq!(ft_balance_of(&env, &alice).unwrap(), balance_before);
    assert_eq!(ft_total_supply(&env).unwrap(), supply_before);
}

#[test]
fn transfer_there_and_back_is_a_no_op() {
    let alice = acct("alice");
    let bob = acct("bob");

    let mut env = test_env("alice");

    Nep141Controller::deposit_unchecked(&mut env, &alice, 10).unwrap().unwrap();
    Nep141Controller::deposit_unchecked(&mut env, &bob, 3).unwrap().unwrap();

    let t1 = Nep141Transfer::new(4, alice.clone(), bob.clone());
    Nep141Controller::transfer_unchecked(&mut env, &t1.sender_id, &t1.receiver_id, 4)
        .unwrap()
        .unwrap();
    Nep141Controller::transfer_unchecked(&mut env, &bob, &alice, 4).unwrap().unwrap();

    assert_eq!(ft_balance_of(&env, &alice).unwrap(), "10");
    assert_eq!(ft_balance_of(&env, &bob).unwrap(), "3");
    assert_eq!(ft_total_supply(&env).unwrap(), "13");
}
