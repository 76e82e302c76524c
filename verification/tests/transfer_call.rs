use contract_tools::account::AccountId;
use contract_tools::env::Env;
use contract_tools::env::PromiseAction;
use contract_tools::nep141::ft_balance_of;
use contract_tools::nep141::ft_resolve_transfer;
use contract_tools::nep141::ft_total_supply;
use contract_tools::nep141::ft_transfer_call;
use contract_tools::nep141::BurnNep141OnForceUnregisterHook;
use contract_tools::nep141::Nep141Controller;
use contract_tools::nep141::Nep141Mint;
use contract_tools::nep141::GAS_FOR_FT_TRANSFER_CALL;
use contract_tools::nep141::GAS_FOR_RESOLVE_TRANSFER;
use contract_tools::nep145::Nep145;
use contract_tools::nep145::Nep145Controller;

fn acct(name: &str) -> AccountId {
    AccountId::new(name.to_string()).unwrap()
}

fn test_env(predecessor: &str) -> Env {
    Env::new(acct(predecessor), acct("contract"))
}

#[test]
fn transfer_call_schedules_call_and_resolve() {
    let alice = acct("alice");
    let bob = acct("bob");

    let mut env = test_env("alice");
    Nep141Controller::mint::<()>(&mut env, &Nep141Mint::new(100, alice.clone()))
        .unwrap()
        .unwrap();

    env.attached_deposit = 1;
    ft_transfer_call::<()>(&mut env, bob.clone(), 30, None, "return".to_string()).unwrap();

    assert_eq!(ft_balance_of(&env, &alice).unwrap(), "70");
    assert_eq!(ft_balance_of(&env, &bob).unwrap(), "30");

    assert_eq!(env.promises.len(), 1);
    let chain = &env.promises[0];
    assert_eq!(chain.len(), 2);
    assert_eq!(chain[0].receiver.as_str(), "bob");
    match &chain[0].action {
        PromiseAction::FunctionCall { method, args, deposit, gas } => {
            assert_eq!(method, "ft_on_transfer");
            assert_eq!(
                args,
                "{\"sender_id\":\"alice\",\"amount\":\"30\",\"msg\":\"return\"}",
            );
            assert_eq!(*deposit, 0);
            assert_eq!(*gas, GAS_FOR_FT_TRANSFER_CALL - GAS_FOR_RESOLVE_TRANSFER);
        },
        other => panic!("unexpected action: {other:?}"),
    }
    assert_eq!(chain[1].receiver.as_str(), "contract");
    match &chain[1].action {
        PromiseAction::FunctionCall { method, args, deposit, gas } => {
            assert_eq!(method, "ft_resolve_transfer");
            assert_eq!(
                args,
                "{\"sender_id\":\"alice\",\"receiver_id\":\"bob\",\"amount\":\"30\"}",
            );
            assert_eq!(*deposit, 0);
            assert_eq!(*gas, GAS_FOR_RESOLVE_TRANSFER);
        },
        other => panic!("unexpected action: {other:?}"),
    }
}

#[test]
fn transfer_call_needs_one_yocto() {
    let alice = acct("alice");
    let bob = acct("bob");

    let mut env = test_env("alice");
    Nep141Controller::mint::<()>(&mut env, &Nep141Mint::new(100, alice.clone()))
        .unwrap()
        .unwrap();

    let r = ft_transfer_call::<()>(&mut env, bob.clone(), 30, None, "".to_string());
    let message = r.unwrap_err().message;
    assert_eq!(message, "Requires attached deposit of exactly 1 yoctoNEAR");
    assert_eq!(ft_balance_of(&env, &alice).unwrap(), "100");
}

#[test]
fn transfer_call_with_full_refund() {
    let alice = acct("alice");
    let bob = acct("bob");

    let mut env = test_env("alice");
    Nep141Controller::mint::<()>(&mut env, &Nep141Mint::new(100, alice.clone()))
        .unwrap()
        .unwrap();

    env.attached_deposit = 1;
    ft_transfer_call::<()>(&mut env, bob.clone(), 30, None, "return".to_string()).unwrap();

    // The receiver reported the whole amount as unused.
    env.predecessor = acct("contract");
    let used = ft_resolve_transfer::<(), ()>(
        &mut env,
        alice.clone(),
        bob.clone(),
        30,
        Some("30".to_string()),
    )
    .unwrap();

    assert_eq!(used, "0");
    assert_eq!(ft_balance_of(&env, &alice).unwrap(), "100");
    assert_eq!(ft_balance_of(&env, &bob).unwrap(), "0");
}

#[test]
fn transfer_call_with_zero_unused_matches_plain_transfer() {
    let alice = acct("alice");
    let bob = acct("bob");

    // One environment runs a transfer-call resolved with "0" ...
    let mut env = test_env("alice");
    Nep141Controller::mint::<()>(&mut env, &Nep141Mint::new(100, alice.clone()))
        .unwrap()
        .unwrap();
    env.attached_deposit = 1;
    ft_transfer_call::<()>(&mut env, bob.clone(), 30, None, "keep".to_string()).unwrap();
    env.predecessor = acct("contract");
    let used = ft_resolve_transfer::<(), ()>(
        &mut env,
        alice.clone(),
        bob.clone(),
        30,
        Some("0".to_string()),
    )
    .unwrap();
    assert_eq!(used, "30");

    // ... the other runs the plain transfer.
    let mut plain = test_env("alice");
    Nep141Controller::mint::<()>(&mut plain, &Nep141Mint::new(100, alice.clone()))
        .unwrap()
        .unwrap();
    plain.attached_deposit = 1;
    contract_tools::nep141::ft_transfer::<()>(&mut plain, bob.clone(), 30, None).unwrap();

    assert_eq!(
        ft_balance_of(&env, &alice).unwrap(),
        ft_balance_of(&plain, &alice).unwrap(),
    );
    assert_eq!(
        ft_balance_of(&env, &bob).unwrap(),
        ft_balance_of(&plain, &bob).unwrap(),
    );
    assert_eq!(ft_total_supply(&env).unwrap(), ft_total_supply(&plain).unwrap());
}

#[test]
fn resolve_with_malformed_report_drops_the_refund() {
    let alice = acct("alice");
    let bob = acct("bob");

    let mut env = test_env("alice");
    Nep141Controller::mint::<()>(&mut env, &Nep141Mint::new(100, alice.clone()))
        .unwrap()
        .unwrap();
    env.attached_deposit = 1;
    ft_transfer_call::<()>(&mut env, bob.clone(), 30, None, "".to_string()).unwrap();

    env.predecessor = acct("contract");
    let used = ft_resolve_transfer::<(), ()>(
        &mut env,
        alice.clone(),
        bob.clone(),
        30,
        Some("not a number".to_string()),
    )
    .unwrap();

    assert_eq!(used, "30");
    assert_eq!(ft_balance_of(&env, &alice).unwrap(), "70");
    assert_eq!(ft_balance_of(&env, &bob).unwrap(), "30");
}

#[test]
fn resolve_is_private() {
    let alice = acct("alice");
    let bob = acct("bob");

    let mut env = test_env("alice");
    let r = ft_resolve_transfer::<(), ()>(&mut env, alice.clone(), bob.clone(), 5, None);
    assert!(r.is_err());
}

#[test]
fn forced_unregister_burns_tokens() {
    let alice = acct("alice");

    let mut env = test_env("alice");
    Nep145Controller::deposit_to_storage_account(&mut env, &alice, 1_000)
        .unwrap()
        .unwrap();
    Nep141Controller::mint::<()>(&mut env, &Nep141Mint::new(50, alice.clone()))
        .unwrap()
        .unwrap();

    assert_eq!(ft_total_supply(&env).unwrap(), "50");

    env.predecessor = alice.clone();
    env.attached_deposit = 1;
    let removed = Nep145::storage_unregister::<BurnNep141OnForceUnregisterHook>(
        &mut env,
        Some(true),
    )
    .unwrap();

    assert!(removed);
    assert_eq!(ft_balance_of(&env, &alice).unwrap(), "0");
    assert_eq!(ft_total_supply(&env).unwrap(), "0");
    assert!(Nep145::storage_balance_of(&env, &alice).unwrap().is_none());
    assert!(env
        .logs
        .iter()
        .any(|l| l.contains("\"event\":\"ft_burn\"")
            && l.contains("\"owner_id\":\"alice\"")
            && l.contains("\"amount\":\"50\"")
            && l.contains("storage forced unregistration")));
}
