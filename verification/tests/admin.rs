use contract_tools::account::AccountId;
use contract_tools::env::Env;
use contract_tools::escrow::Escrow;
use contract_tools::owner::Owner;
use contract_tools::rbac::Rbac;

fn acct(name: &str) -> AccountId {
    AccountId::new(name.to_string()).unwrap()
}

fn test_env(predecessor: &str) -> Env {
    Env::new(acct(predecessor), acct("contract"))
}

#[test]
fn owner_can_be_set_once_and_handed_over() {
    let alice = acct("alice");
    let bob = acct("bob");

    let mut env = test_env("alice");

    assert!(Owner::owner_bytes(&env).is_none());
    Owner::init(&mut env, &alice).unwrap();
    assert!(Owner::init(&mut env, &bob).is_err());

    Owner::require_owner(&env).unwrap();

    Owner::update_owner(&mut env, &bob).unwrap();
    assert!(Owner::require_owner(&env).is_err());

    env.predecessor = bob.clone();
    Owner::require_owner(&env).unwrap();

    // The old owner lost its standing entirely.
    let r = Owner::update_owner(&mut env, &alice);
    assert!(r.is_ok());
    env.predecessor = bob.clone();
    assert!(Owner::update_owner(&mut env, &alice).is_err());
}

#[test]
fn roles_are_per_account_and_per_tag() {
    let alice = acct("alice");
    let bob = acct("bob");

    let mut env = test_env("alice");

    Rbac::add_role(&mut env, &alice, 1);
    assert!(Rbac::has_role(&env, &alice, 1));
    assert!(!Rbac::has_role(&env, &alice, 2));
    assert!(!Rbac::has_role(&env, &bob, 1));

    Rbac::require_role(&env, 1).unwrap();
    assert!(Rbac::require_role(&env, 2).is_err());

    Rbac::remove_role(&mut env, &alice, 1);
    assert!(!Rbac::has_role(&env, &alice, 1));
}

#[test]
fn escrow_unlock_returns_the_locked_state() {
    let mut env = test_env("alice");

    assert!(!Escrow::is_locked(&env, 9));
    Escrow::lock(&mut env, 9, vec![1, 2, 3]).unwrap();
    assert!(Escrow::is_locked(&env, 9));
    assert!(!Escrow::is_locked(&env, 10));

    let state = Escrow::unlock(&mut env, 9).unwrap();
    assert_eq!(state, vec![1, 2, 3]);
    assert!(!Escrow::is_locked(&env, 9));
    assert!(Escrow::unlock(&mut env, 9).is_err());
}
