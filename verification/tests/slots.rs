use contract_tools::account::AccountId;
use contract_tools::env::Env;
use contract_tools::hook::Hook;
use contract_tools::hook::HostAbort;
use contract_tools::nep141::Nep141ControllerInternal;
use contract_tools::slot::DefaultStorageKey;
use contract_tools::slot::Slot;
use contract_tools::store::Store;
use contract_tools::text::parse_u128_dec;
use contract_tools::text::u128_to_dec;

fn acct(name: &str) -> AccountId {
    AccountId::new(name.to_string()).unwrap()
}

#[test]
fn write_then_read_round_trips() {
    let mut store = Store::new();
    let slot = Slot::root(DefaultStorageKey::Escrow).field(7, b"key");

    assert_eq!(slot.read(&store), None);
    assert!(!slot.is_exist(&store));

    slot.write(&mut store, vec![1, 2, 3]);
    assert_eq!(slot.read(&store), Some(vec![1, 2, 3]));
    assert!(slot.is_exist(&store));

    slot.write(&mut store, vec![9]);
    assert_eq!(slot.read(&store), Some(vec![9]));

    let prior = slot.swap(&mut store, vec![4, 5]);
    assert_eq!(prior, Some(vec![9]));
    assert_eq!(slot.read(&store), Some(vec![4, 5]));

    assert!(slot.remove(&mut store));
    assert_eq!(slot.read(&store), None);
    assert!(!slot.remove(&mut store));
}

#[test]
fn sibling_slots_do_not_interfere() {
    let mut store = Store::new();
    let parent = Slot::root(DefaultStorageKey::Rbac);
    let a = parent.field(1, b"left");
    let b = parent.field(1, b"right");
    let c = parent.field(2, b"left");

    a.write(&mut store, vec![1]);
    b.write(&mut store, vec![2]);
    c.write(&mut store, vec![3]);

    assert_eq!(a.read(&store), Some(vec![1]));
    assert_eq!(b.read(&store), Some(vec![2]));
    assert_eq!(c.read(&store), Some(vec![3]));

    b.remove(&mut store);
    assert_eq!(a.read(&store), Some(vec![1]));
    assert_eq!(b.read(&store), None);
    assert_eq!(c.read(&store), Some(vec![3]));
}

#[test]
fn account_slots_are_collision_free() {
    let a = acct("alice");
    let b = acct("bob");

    let slot_a = Nep141ControllerInternal::slot_account(&a);
    let slot_b = Nep141ControllerInternal::slot_account(&b);
    let slot_total = Nep141ControllerInternal::slot_total_supply();

    assert_ne!(slot_a.key, slot_b.key);
    assert_ne!(slot_a.key, slot_total.key);
    assert_ne!(slot_b.key, slot_total.key);
}

#[test]
fn component_roots_are_distinct() {
    let roots = [
        DefaultStorageKey::Owner,
        DefaultStorageKey::Pause,
        DefaultStorageKey::Rbac,
        DefaultStorageKey::Nep141,
        DefaultStorageKey::Nep145,
        DefaultStorageKey::Nep171,
        DefaultStorageKey::Nep177,
        DefaultStorageKey::Nep178,
        DefaultStorageKey::Nep181,
        DefaultStorageKey::ApprovalManager,
        DefaultStorageKey::Escrow,
    ];
    for (i, x) in roots.iter().enumerate() {
        for (j, y) in roots.iter().enumerate() {
            if i != j {
                assert_ne!(Slot::root(*x).key, Slot::root(*y).key);
            }
        }
    }
}

#[test]
fn nested_derivations_stay_unambiguous() {
    // A child whose payload mimics a deeper derivation still gets its own
    // key: the length prefix keeps paths apart.
    let parent = Slot::root(DefaultStorageKey::Escrow);
    let deep = parent.field(1, b"a").field(2, b"b");
    let shallow_payload = deep.key[1..].to_vec();
    let mimic = parent.field(1, &shallow_payload);
    assert_ne!(deep.key, mimic.key);
    assert_ne!(deep.key, parent.key);
}

#[test]
fn decimal_rendering_and_parsing() {
    assert_eq!(u128_to_dec(0), "0");
    assert_eq!(u128_to_dec(7), "7");
    assert_eq!(u128_to_dec(10), "10");
    assert_eq!(u128_to_dec(1205), "1205");
    assert_eq!(
        u128_to_dec(u128::MAX),
        "340282366920938463463374607431768211455",
    );

    assert_eq!(parse_u128_dec("0"), Some(0));
    assert_eq!(parse_u128_dec("30"), Some(30));
    assert_eq!(
        parse_u128_dec("340282366920938463463374607431768211455"),
        Some(u128::MAX),
    );
    assert_eq!(parse_u128_dec("340282366920938463463374607431768211456"), None);
    assert_eq!(parse_u128_dec(""), None);
    assert_eq!(parse_u128_dec("12a"), None);
    assert_eq!(parse_u128_dec("-4"), None);

    assert_eq!(parse_u128_dec(&u128_to_dec(123_456_789)), Some(123_456_789));
}

/// A hook that logs one line before and one after the wrapped operation.
struct Tagged<const N: u8>;

impl<const N: u8, A> Hook<Env, A> for Tagged<N> {
    fn hook<R, F: FnOnce(&mut Env) -> Result<R, HostAbort>>(
        contract: &mut Env,
        _args: &A,
        f: F,
    ) -> Result<R, HostAbort> {
        contract.log(format!("before {N}"));
        let r = f(contract);
        contract.log(format!("after {N}"));
        r
    }
}

fn run_hooked<H: Hook<Env, u8>>(env: &mut Env) {
    let inner = |c: &mut Env| -> Result<(), HostAbort> {
        c.log("inner".to_string());
        Ok(())
    };
    H::hook(env, &0, inner).unwrap();
}

#[test]
fn hook_pairing_is_associative_in_effect_order() {
    let mut left = Env::new(acct("caller"), acct("contract"));
    run_hooked::<((Tagged<1>, Tagged<2>), Tagged<3>)>(&mut left);

    let mut right = Env::new(acct("caller"), acct("contract"));
    run_hooked::<(Tagged<1>, (Tagged<2>, Tagged<3>))>(&mut right);

    let expected = vec![
        "before 1", "before 2", "before 3", "inner", "after 3", "after 2", "after 1",
    ];
    assert_eq!(left.logs, expected);
    assert_eq!(right.logs, expected);
}

#[test]
fn unit_hook_is_the_identity() {
    let mut plain = Env::new(acct("caller"), acct("contract"));
    run_hooked::<()>(&mut plain);

    let mut wrapped = Env::new(acct("caller"), acct("contract"));
    run_hooked::<((), ((), ()))>(&mut wrapped);

    assert_eq!(plain.logs, vec!["inner"]);
    assert_eq!(wrapped.logs, plain.logs);
}

#[test]
fn account_ids_are_validated() {
    assert!(AccountId::new("alice".to_string()).is_some());
    assert!(AccountId::new("".to_string()).is_none());
    assert!(AccountId::new("a".repeat(64)).is_some());
    assert!(AccountId::new("a".repeat(65)).is_none());
    assert!(AccountId::new("caf\u{e9}".to_string()).is_none());
}
