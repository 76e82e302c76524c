use contract_tools::account::AccountId;
use contract_tools::approval::Action;
use contract_tools::approval::ActionRequest;
use contract_tools::approval::ApprovalConfiguration;
use contract_tools::approval::ApprovalManager;
use contract_tools::env::Env;
use contract_tools::rbac::Rbac;

const MULTISIG_ROLE: u8 = 0;

fn acct(name: &str) -> AccountId {
    AccountId::new(name.to_string()).unwrap()
}

fn test_env(predecessor: &str) -> Env {
    Env::new(acct(predecessor), acct("contract"))
}

#[derive(Debug, PartialEq, Eq, Clone)]
enum MyAction {
    SayHello,
    SayGoodbye,
}

impl Action<Env> for MyAction {
    type Output = &'static str;

    // Specification-level in verified builds; never called here.
    fn spec_execute(&self, _pre: &Env, _post: &Env, output: &&'static str) -> bool {
        match self {
            Self::SayHello => *output == "hello",
            Self::SayGoodbye => *output == "goodbye",
        }
    }

    fn execute(self, _contract: &mut Env) -> Self::Output {
        match self {
            Self::SayHello => {
                println!("Hello!");
                "hello"
            },
            Self::SayGoodbye => {
                println!("Goodbye!");
                "goodbye"
            },
        }
    }
}

#[derive(Debug)]
struct MultisigConfig {
    pub threshold: u8,
}

#[derive(Debug, Default)]
struct MultisigApprovalState {
    pub approved_by: Vec<AccountId>,
}

impl ApprovalConfiguration<Env, MyAction, MultisigApprovalState> for MultisigConfig {
    type ApprovalError = String;
    type RemovalError = ();
    type AuthorizationError = String;
    type ExecutionEligibilityError = String;

    // The verdict functions are specification-level in verified builds; in
    // this unverified test build they are ordinary functions and are never
    // called.
    fn spec_eligible(
        &self,
        contract: &Env,
        action_request: &ActionRequest<MyAction, MultisigApprovalState>,
    ) -> bool {
        self.is_approved_for_execution(contract, action_request).is_ok()
    }

    fn spec_removable(
        &self,
        _contract: &Env,
        _action_request: &ActionRequest<MyAction, MultisigApprovalState>,
    ) -> bool {
        true
    }

    fn spec_authorized(
        &self,
        contract: &Env,
        account_id: &AccountId,
        _action_request: &ActionRequest<MyAction, MultisigApprovalState>,
    ) -> bool {
        Rbac::has_role(contract, account_id, MULTISIG_ROLE)
    }

    fn spec_approval_accepted(
        &self,
        _contract: &Env,
        account_id: &AccountId,
        action_request: &ActionRequest<MyAction, MultisigApprovalState>,
    ) -> bool {
        !action_request
            .approval_state
            .approved_by
            .iter()
            .any(|a| a == account_id)
    }

    fn spec_approved(
        &self,
        _contract: &Env,
        account_id: &AccountId,
        pre: &ActionRequest<MyAction, MultisigApprovalState>,
        post: &ActionRequest<MyAction, MultisigApprovalState>,
    ) -> bool {
        post.action == pre.action
            && post.approval_state.approved_by.len()
                == pre.approval_state.approved_by.len() + 1
            && post.approval_state.approved_by.last() == Some(account_id)
    }

    fn is_approved_for_execution(
        &self,
        contract: &Env,
        action_request: &ActionRequest<MyAction, MultisigApprovalState>,
    ) -> Result<(), String> {
        let valid_signatures = action_request
            .approval_state
            .approved_by
            .iter()
            .filter(|account_id| Rbac::has_role(contract, account_id, MULTISIG_ROLE))
            .count();

        let threshold = self.threshold as usize;

        if valid_signatures >= threshold {
            Ok(())
        } else {
            Err("Insufficient signatures".to_string())
        }
    }

    fn is_removable(
        &self,
        _contract: &Env,
        _action_request: &ActionRequest<MyAction, MultisigApprovalState>,
    ) -> Result<(), ()> {
        Ok(())
    }

    fn is_account_authorized(
        &self,
        contract: &Env,
        account_id: &AccountId,
        _action_request: &ActionRequest<MyAction, MultisigApprovalState>,
    ) -> Result<(), String> {
        if Rbac::has_role(contract, account_id, MULTISIG_ROLE) {
            Ok(())
        } else {
            Err("Account is missing Multisig role".to_string())
        }
    }

    fn try_approve_with_authorized_account(
        &self,
        _contract: &Env,
        account_id: AccountId,
        action_request: &mut ActionRequest<MyAction, MultisigApprovalState>,
    ) -> Result<(), String> {
        if action_request
            .approval_state
            .approved_by
            .iter()
            .any(|a| a == &account_id)
        {
            return Err("Already approved by account".to_string());
        }

        action_request.approval_state.approved_by.push(account_id);

        Ok(())
    }
}

fn new_manager(threshold: u8) -> ApprovalManager<MyAction, MultisigApprovalState, MultisigConfig> {
    let mut manager = ApprovalManager::new();
    manager.init(MultisigConfig { threshold }).unwrap();
    manager
}

#[test]
fn successful_approval() {
    let alice = acct("alice");
    let bob = acct("bob_acct");
    let charlie = acct("charlie");

    let mut env = test_env("alice");
    let mut manager = new_manager(2);

    Rbac::add_role(&mut env, &alice, MULTISIG_ROLE);
    Rbac::add_role(&mut env, &bob, MULTISIG_ROLE);
    Rbac::add_role(&mut env, &charlie, MULTISIG_ROLE);

    env.predecessor = alice.clone();
    let request_id = manager
        .create_request(
            &env,
            &alice,
            MyAction::SayHello,
            MultisigApprovalState::default(),
        )
        .unwrap()
        .unwrap();

    assert_eq!(request_id, 0);
    assert!(manager
        .is_approved_for_execution(&env, request_id)
        .unwrap()
        .is_err());

    manager.approve_request(&env, &alice, request_id).unwrap().unwrap();

    assert!(manager
        .is_approved_for_execution(&env, request_id)
        .unwrap()
        .is_err());

    env.predecessor = charlie.clone();
    manager
        .approve_request(&env, &charlie, request_id)
        .unwrap()
        .unwrap();

    assert!(manager
        .is_approved_for_execution(&env, request_id)
        .unwrap()
        .is_ok());

    assert_eq!(
        manager
            .execute_request(&mut env, &charlie, request_id)
            .unwrap()
            .unwrap(),
        "hello",
    );
}

#[test]
#[should_panic(expected = "Already approved by account")]
fn duplicate_approval() {
    let alice = acct("alice");

    let mut env = test_env("alice");
    let mut manager = new_manager(2);

    Rbac::add_role(&mut env, &alice, MULTISIG_ROLE);

    let request_id = manager
        .create_request(
            &env,
            &alice,
            MyAction::SayHello,
            MultisigApprovalState::default(),
        )
        .unwrap()
        .unwrap();

    manager.approve_request(&env, &alice, request_id).unwrap().unwrap();

    manager.approve_request(&env, &alice, request_id).unwrap().unwrap();
}

#[test]
#[should_panic = "Insufficient signatures"]
fn no_execution_before_approval() {
    let alice = acct("alice");

    let mut env = test_env("alice");
    let mut manager = new_manager(2);

    Rbac::add_role(&mut env, &alice, MULTISIG_ROLE);

    let request_id = manager
        .create_request(
            &env,
            &alice,
            MyAction::SayHello,
            MultisigApprovalState::default(),
        )
        .unwrap()
        .unwrap();

    manager.approve_request(&env, &alice, request_id).unwrap().unwrap();

    manager
        .execute_request(&mut env, &alice, request_id)
        .unwrap()
        .unwrap();
}

#[test]
fn successful_removal() {
    let alice = acct("alice");
    let bob = acct("bob_acct");

    let mut env = test_env("alice");
    let mut manager = new_manager(2);

    Rbac::add_role(&mut env, &alice, MULTISIG_ROLE);
    Rbac::add_role(&mut env, &bob, MULTISIG_ROLE);

    let request_id = manager
        .create_request(
            &env,
            &alice,
            MyAction::SayHello,
            MultisigApprovalState::default(),
        )
        .unwrap()
        .unwrap();

    manager.approve_request(&env, &alice, request_id).unwrap().unwrap();

    env.predecessor = bob.clone();

    manager.remove_request(&env, &bob, request_id).unwrap().unwrap();
}

#[test]
fn dynamic_eligibility() {
    let alice = acct("alice");
    let bob = acct("bob_acct");
    let charlie = acct("charlie");

    let mut env = test_env("alice");
    let mut manager = new_manager(2);

    Rbac::add_role(&mut env, &alice, MULTISIG_ROLE);
    Rbac::add_role(&mut env, &bob, MULTISIG_ROLE);
    Rbac::add_role(&mut env, &charlie, MULTISIG_ROLE);

    let request_id = manager
        .create_request(
            &env,
            &alice,
            MyAction::SayGoodbye,
            MultisigApprovalState::default(),
        )
        .unwrap()
        .unwrap();

    manager.approve_request(&env, &alice, request_id).unwrap().unwrap();

    env.predecessor = bob.clone();
    manager.approve_request(&env, &bob, request_id).unwrap().unwrap();

    assert!(manager
        .is_approved_for_execution(&env, request_id)
        .unwrap()
        .is_ok());

    Rbac::remove_role(&mut env, &alice, MULTISIG_ROLE);

    assert!(manager
        .is_approved_for_execution(&env, request_id)
        .unwrap()
        .is_err());

    env.predecessor = charlie.clone();
    manager.approve_request(&env, &charlie, request_id).unwrap().unwrap();

    assert!(manager
        .is_approved_for_execution(&env, request_id)
        .unwrap()
        .is_ok());
}

#[test]
fn request_ids_stay_fresh_after_removal() {
    let alice = acct("alice");

    let mut env = test_env("alice");
    let mut manager = new_manager(1);

    Rbac::add_role(&mut env, &alice, MULTISIG_ROLE);

    let first = manager
        .create_request(
            &env,
            &alice,
            MyAction::SayHello,
            MultisigApprovalState::default(),
        )
        .unwrap()
        .unwrap();
    manager.remove_request(&env, &alice, first).unwrap().unwrap();

    let second = manager
        .create_request(
            &env,
            &alice,
            MyAction::SayGoodbye,
            MultisigApprovalState::default(),
        )
        .unwrap()
        .unwrap();

    assert_eq!(first, 0);
    assert_eq!(second, 1);
    assert!(second > first);
}

#[test]
fn init_only_once() {
    let mut manager: ApprovalManager<MyAction, MultisigApprovalState, MultisigConfig> =
        ApprovalManager::new();
    assert!(manager.init(MultisigConfig { threshold: 1 }).is_ok());
    let again = manager.init(MultisigConfig { threshold: 2 });
    assert!(again.is_err());
    assert_eq!(again.unwrap_err().message, "init can only be called once");
}
