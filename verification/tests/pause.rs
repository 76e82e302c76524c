use contract_tools::account::AccountId;
use contract_tools::env::Env;
use contract_tools::pause::Pause;

fn acct(name: &str) -> AccountId {
    AccountId::new(name.to_string()).unwrap()
}

fn test_env() -> Env {
    Env::new(acct("caller"), acct("contract"))
}

struct Contract {
    env: Env,
    value: u32,
}

impl Contract {
    fn new() -> Self {
        Contract { env: test_env(), value: 0 }
    }

    fn only_when_unpaused(&mut self, value: u32) {
        Pause::require_unpaused(&self.env).unwrap();

        self.value = value;
    }

    fn only_when_paused(&mut self, value: u32) {
        Pause::require_paused(&self.env).unwrap();

        self.value = value;
    }

    fn get_value(&self) -> u32 {
        self.value
    }
}

#[test]
fn derive_pause() {
    let mut contract = Contract::new();

    assert!(
        !Pause::is_paused(&contract.env),
        "Initial state should be unpaused",
    );

    Pause::require_unpaused(&contract.env).unwrap();

    Pause::pause(&mut contract.env);

    assert!(Pause::is_paused(&contract.env), "Pausing the contract works");

    Pause::require_paused(&contract.env).unwrap();

    Pause::unpause(&mut contract.env);

    assert!(
        !Pause::is_paused(&contract.env),
        "Unpausing the contract works",
    );

    Pause::require_unpaused(&contract.env).unwrap();
}

#[test]
fn derive_pause_methods() {
    let mut contract = Contract::new();

    contract.only_when_unpaused(5);

    assert_eq!(contract.get_value(), 5);

    Pause::pause(&mut contract.env);

    contract.only_when_paused(10);

    assert_eq!(contract.get_value(), 10);
}

#[test]
#[should_panic(expected = "Disallowed while contract is unpaused")]
fn derive_pause_methods_fail_unpaused() {
    let mut contract = Contract::new();

    contract.only_when_paused(5);
}

#[test]
#[should_panic(expected = "Disallowed while contract is paused")]
fn derive_pause_methods_fail_paused() {
    let mut contract = Contract::new();

    Pause::pause(&mut contract.env);

    contract.only_when_unpaused(5);
}
