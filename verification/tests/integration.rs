use contract_tools::account::AccountId;
use contract_tools::bytes::u32_to_le_bytes;
use contract_tools::bytes::u32_from_le_bytes;
use contract_tools::bytes::u64_to_le_bytes;
use contract_tools::bytes::u64_from_le_bytes;
use contract_tools::env::Env;
use contract_tools::escrow::Escrow;
use contract_tools::event::emit_event;
use contract_tools::owner::Owner;
use contract_tools::pause::Pause;
use contract_tools::rbac::Rbac;
use contract_tools::slot::Slot;

const CAN_PAUSE: u8 = 0;
const CAN_SET_VALUE: u8 = 1;

fn acct(name: &str) -> AccountId {
    AccountId::new(name.to_string()).unwrap()
}

fn state_slot() -> Slot {
    Slot::new(b"STATE".to_vec())
}

/// A contract mixing ownership, pause, roles and escrow, with one `u32`
/// value only role holders may set while unpaused.
struct Integration {
    env: Env,
    value: u32,
}

impl Integration {
    fn new(owner_id: &AccountId) -> Self {
        let mut env = Env::new(owner_id.clone(), acct("contract"));
        Owner::init(&mut env, owner_id).unwrap();
        Rbac::add_role(&mut env, owner_id, CAN_SET_VALUE);
        Rbac::add_role(&mut env, owner_id, CAN_PAUSE);
        Integration { env, value: 0 }
    }

    fn add_value_setter(&mut self, account_id: &AccountId) {
        Owner::require_owner(&self.env).unwrap();

        Rbac::add_role(&mut self.env, account_id, CAN_SET_VALUE);

        emit_event(
            &mut self.env,
            "x-myevent",
            "1.0.0",
            "permission_granted",
            &format!("{{\"to\":\"{}\"}}", account_id.as_str()),
        );
    }

    fn set_value(&mut self, value: u32) {
        Pause::require_unpaused(&self.env).unwrap();
        Rbac::require_role(&self.env, CAN_SET_VALUE).unwrap();

        let old = self.value;

        self.value = value;

        emit_event(
            &mut self.env,
            "x-myevent",
            "1.0.0",
            "value_changed",
            &format!("{{\"from\":{old},\"to\":{value}}}"),
        );
    }

    fn pause(&mut self) {
        Rbac::require_role(&self.env, CAN_PAUSE).unwrap();
        Pause::pause(&mut self.env);
    }

    fn unpause(&mut self) {
        Rbac::require_role(&self.env, CAN_PAUSE).unwrap();
        Pause::unpause(&mut self.env);
    }

    fn get_value(&self) -> u32 {
        self.value
    }

    fn lock_data(&mut self, id: u64, data: String) {
        Escrow::lock(&mut self.env, id, data.into_bytes()).unwrap();
    }

    fn unlock_data(&mut self, id: u64) {
        let data = Escrow::unlock(&mut self.env, id).unwrap();
        assert!(!data.is_empty());
    }

    fn check_is_locked(&self, id: u64) -> bool {
        Escrow::is_locked(&self.env, id)
    }

    /// Persists the contract's own state, as the host does between calls.
    fn state_write(&mut self) {
        state_slot().write(&mut self.env.store, u32_to_le_bytes(self.value));
    }
}

/// The next version of the contract: the value moves, a string field joins.
struct MigrateIntegration {
    env: Env,
    new_value: String,
    moved_value: u32,
}

impl MigrateIntegration {
    /// Reads the old persisted state and builds the new one from it.
    fn migrate(mut old: Integration) -> Self {
        Owner::require_owner(&old.env).unwrap();
        Pause::require_unpaused(&old.env).unwrap();

        let bytes = state_slot().read(&old.env.store).unwrap();
        let moved_value = u32_from_le_bytes(&bytes);

        MigrateIntegration {
            env: old.env,
            new_value: "my string".to_string(),
            moved_value,
        }
    }

    fn add_value_setter(&mut self, account_id: &AccountId) {
        Owner::require_owner(&self.env).unwrap();
        Rbac::add_role(&mut self.env, account_id, CAN_SET_VALUE);
    }

    fn set_value(&mut self, value: u32) {
        Pause::require_unpaused(&self.env).unwrap();
        Rbac::require_role(&self.env, CAN_SET_VALUE).unwrap();
        self.moved_value = value;
    }

    fn pause(&mut self) {
        Rbac::require_role(&self.env, CAN_PAUSE).unwrap();
        Pause::pause(&mut self.env);
    }

    fn unpause(&mut self) {
        Rbac::require_role(&self.env, CAN_PAUSE).unwrap();
        Pause::unpause(&mut self.env);
    }

    fn get_value(&self) -> u32 {
        self.moved_value
    }
}

#[test]
fn integration() {
    let owner = acct("owner");
    let alice = acct("alice");

    let mut c = Integration::new(&owner);

    c.set_value(5);

    assert_eq!(c.get_value(), 5);

    c.add_value_setter(&alice);

    c.env.predecessor = alice.clone();

    c.set_value(15);

    assert_eq!(c.get_value(), 15);

    c.env.predecessor = owner.clone();

    c.pause();
    c.unpause();

    c.set_value(25);

    assert_eq!(c.get_value(), 25);

    // Perform migration
    c.state_write();

    let mut migrated = MigrateIntegration::migrate(c);

    assert_eq!(migrated.moved_value, 25);
    assert_eq!(migrated.get_value(), 25);
    assert_eq!(migrated.new_value, "my string");

    let bob = acct("bob_addr");

    migrated.env.predecessor = owner.clone();
    migrated.set_value(5);

    assert_eq!(migrated.get_value(), 5);

    // make sure alice still has permission
    migrated.env.predecessor = alice.clone();

    migrated.set_value(256);

    assert_eq!(migrated.get_value(), 256);

    // add bob permissions
    migrated.env.predecessor = owner.clone();

    migrated.add_value_setter(&bob);

    migrated.env.predecessor = bob.clone();

    migrated.set_value(77);

    assert_eq!(migrated.get_value(), 77);

    migrated.env.predecessor = owner.clone();

    migrated.pause();
    migrated.unpause();

    migrated.set_value(8);

    assert_eq!(migrated.get_value(), 8);

    let mut c2 = Integration::new(&owner);
    c2.lock_data(1, "Data".to_string());
    assert!(c2.check_is_locked(1));
    c2.unlock_data(1);
}

#[test]
#[should_panic(expected = "Unauthorized")]
fn integration_fail_missing_role() {
    let owner = acct("owner");
    let alice = acct("alice");

    let mut c = Integration::new(&owner);

    c.env.predecessor = alice.clone();

    c.set_value(15);
}

#[test]
#[should_panic(expected = "Disallowed while contract is paused")]
fn integration_fail_set_paused() {
    let owner = acct("owner");

    let mut c = Integration::new(&owner);

    c.pause();

    c.set_value(5);
}

#[test]
#[should_panic(expected = "Owner only")]
fn integration_fail_migrate_allow() {
    let owner = acct("owner");
    let alice = acct("alice");

    let mut c = Integration::new(&owner);

    c.state_write();

    c.env.predecessor = alice.clone();

    MigrateIntegration::migrate(c);
}

#[test]
#[should_panic(expected = "Disallowed while contract is paused")]
fn integration_fail_migrate_paused() {
    let owner = acct("owner");

    let mut c = Integration::new(&owner);

    c.pause();

    c.state_write();

    MigrateIntegration::migrate(c);
}

#[test]
#[should_panic(expected = "Already locked")]
fn integration_fail_cannot_lock_twice() {
    let owner = acct("owner");

    let mut c = Integration::new(&owner);

    let id = 1;
    let data = "Data".to_string();
    c.lock_data(id, data.clone());
    c.lock_data(id, data.clone());
}

#[test]
fn default_from() {
    // The old contract version persists one counter.
    let mut env = Env::new(acct("owner"), acct("contract"));
    let foo: u64 = 99;

    // This is done automatically by the host glue in deployed contracts.
    state_slot().write(&mut env.store, u64_to_le_bytes(foo));

    assert_eq!(foo, 99);

    // The new version reads the old state and renames the field.
    let bytes = state_slot().read(&env.store).unwrap();
    let bar = u64_from_le_bytes(&bytes);

    assert_eq!(bar, 99);
}
