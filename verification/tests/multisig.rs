use contract_tools::account::AccountId;
use contract_tools::approval::Action;
use contract_tools::approval::ApprovalManager;
use contract_tools::env::Env;
use contract_tools::env::PromiseAction;
use contract_tools::native_transaction_action::NativeTransactionAction;
use contract_tools::rbac::Rbac;
use contract_tools::simple_multisig::ApprovalState;
use contract_tools::simple_multisig::Configuration;

const MULTISIG_ROLE: u8 = 3;
const HOUR_NS: u64 = 3_600_000_000_000;

fn acct(name: &str) -> AccountId {
    AccountId::new(name.to_string()).unwrap()
}

fn test_env(predecessor: &str) -> Env {
    Env::new(acct(predecessor), acct("contract"))
}

struct Ping;

impl Action<Env> for Ping {
    type Output = u32;

    // Specification-level in verified builds; never called here.
    fn spec_execute(&self, _pre: &Env, _post: &Env, output: &u32) -> bool {
        *output == 42
    }

    fn execute(self, _contract: &mut Env) -> u32 {
        42
    }
}

fn new_manager(threshold: u8) -> ApprovalManager<Ping, ApprovalState, Configuration> {
    let mut manager = ApprovalManager::new();
    manager
        .init(Configuration {
            threshold,
            validity_period: HOUR_NS,
            role: MULTISIG_ROLE,
        })
        .unwrap();
    manager
}

#[test]
fn threshold_with_revoked_approver() {
    let alice = acct("alice");
    let bob = acct("bob");
    let carol = acct("carol");

    let mut env = test_env("alice");
    let mut manager = new_manager(2);

    Rbac::add_role(&mut env, &alice, MULTISIG_ROLE);
    Rbac::add_role(&mut env, &bob, MULTISIG_ROLE);
    Rbac::add_role(&mut env, &carol, MULTISIG_ROLE);

    let id = manager
        .create_request(&env, &alice, Ping, ApprovalState::new(env.block_timestamp))
        .unwrap()
        .unwrap();

    manager.approve_request(&env, &alice, id).unwrap().unwrap();
    manager.approve_request(&env, &bob, id).unwrap().unwrap();

    assert!(manager.is_approved_for_execution(&env, id).unwrap().is_ok());

    // Revoking a role rescinds the effective approval it granted.
    Rbac::remove_role(&mut env, &alice, MULTISIG_ROLE);
    assert_eq!(
        manager.is_approved_for_execution(&env, id).unwrap(),
        Err("Insufficient signatures".to_string()),
    );

    manager.approve_request(&env, &carol, id).unwrap().unwrap();
    assert!(manager.is_approved_for_execution(&env, id).unwrap().is_ok());

    // The action runs once; afterwards the request is gone.
    let output = manager.execute_request(&mut env, &carol, id).unwrap().unwrap();
    assert_eq!(output, 42);
    assert!(manager.execute_request(&mut env, &carol, id).is_err());
}

#[test]
fn requests_expire() {
    let alice = acct("alice");
    let bob = acct("bob");

    let mut env = test_env("alice");
    let mut manager = new_manager(1);

    Rbac::add_role(&mut env, &alice, MULTISIG_ROLE);
    Rbac::add_role(&mut env, &bob, MULTISIG_ROLE);

    let id = manager
        .create_request(&env, &alice, Ping, ApprovalState::new(env.block_timestamp))
        .unwrap()
        .unwrap();
    manager.approve_request(&env, &alice, id).unwrap().unwrap();

    assert!(manager.is_approved_for_execution(&env, id).unwrap().is_ok());

    env.block_timestamp += HOUR_NS + 1;

    assert_eq!(
        manager.is_approved_for_execution(&env, id).unwrap(),
        Err("Approval expired".to_string()),
    );
}

#[test]
fn duplicate_multisig_approval_is_refused() {
    let alice = acct("alice");

    let mut env = test_env("alice");
    let mut manager = new_manager(2);

    Rbac::add_role(&mut env, &alice, MULTISIG_ROLE);

    let id = manager
        .create_request(&env, &alice, Ping, ApprovalState::new(env.block_timestamp))
        .unwrap()
        .unwrap();
    manager.approve_request(&env, &alice, id).unwrap().unwrap();

    let again = manager.approve_request(&env, &alice, id).unwrap();
    assert!(matches!(
        again,
        Err(contract_tools::approval::ApprovalError::ApprovalError(m))
            if m == "Already approved by account"
    ));
}

#[test]
fn unauthorized_account_cannot_create() {
    let mallory = acct("mallory");

    let env = test_env("mallory");
    let mut manager = new_manager(1);

    let r = manager
        .create_request(&env, &mallory, Ping, ApprovalState::new(0))
        .unwrap();
    assert!(matches!(
        r,
        Err(contract_tools::approval::CreationError::UnauthorizedAccount(_))
    ));
}

#[test]
fn native_transaction_action_schedules_its_promise() {
    let alice = acct("alice");
    let mut env = test_env("alice");
    let mut manager: ApprovalManager<NativeTransactionAction, ApprovalState, Configuration> =
        ApprovalManager::new();
    manager
        .init(Configuration {
            threshold: 1,
            validity_period: HOUR_NS,
            role: MULTISIG_ROLE,
        })
        .unwrap();
    Rbac::add_role(&mut env, &alice, MULTISIG_ROLE);

    let action = NativeTransactionAction {
        receiver_id: acct("treasury"),
        actions: vec![PromiseAction::Transfer { amount: 17 }],
    };
    let id = manager
        .create_request(&env, &alice, action, ApprovalState::new(env.block_timestamp))
        .unwrap()
        .unwrap();
    manager.approve_request(&env, &alice, id).unwrap().unwrap();
    manager.execute_request(&mut env, &alice, id).unwrap().unwrap();

    assert_eq!(env.promises.len(), 1);
    assert_eq!(env.promises[0].len(), 1);
    assert_eq!(env.promises[0][0].receiver.as_str(), "treasury");
    assert!(matches!(
        env.promises[0][0].action,
        PromiseAction::Transfer { amount: 17 }
    ));
}

#[test]
fn manager_state_survives_export_and_import() {
    let alice = acct("alice");

    let mut env = test_env("alice");
    let mut manager = new_manager(1);
    Rbac::add_role(&mut env, &alice, MULTISIG_ROLE);

    let first = manager
        .create_request(&env, &alice, Ping, ApprovalState::new(env.block_timestamp))
        .unwrap()
        .unwrap();
    manager.remove_request(&env, &alice, first).unwrap().unwrap();

    // Persist and restore, as the host glue does between calls.
    let (config, next, requests) = manager.export();
    assert_eq!(next, 1);
    assert!(requests.is_empty());
    let mut restored = ApprovalManager::<Ping, ApprovalState, Configuration>::import(
        config, next, requests,
    )
    .unwrap();

    // The restored counter still never reuses the spent id.
    let second = restored
        .create_request(&env, &alice, Ping, ApprovalState::new(env.block_timestamp))
        .unwrap()
        .unwrap();
    assert_eq!(second, 1);
    assert!(second > first);
}

#[test]
fn import_refuses_reusable_ids() {
    let alice = acct("alice");

    let mut env = test_env("alice");
    let mut manager = new_manager(1);
    Rbac::add_role(&mut env, &alice, MULTISIG_ROLE);
    manager
        .create_request(&env, &alice, Ping, ApprovalState::new(env.block_timestamp))
        .unwrap()
        .unwrap();

    let (config, _next, requests) = manager.export();

    // A counter that could hand out a pending id again is refused.
    let bad = ApprovalManager::<Ping, ApprovalState, Configuration>::import(config, 0, requests);
    assert!(bad.is_none());
}
