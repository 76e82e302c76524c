//! Role-based access control: one marker slot per `(role, account)` pair,
//! with a guard predicate over the caller's roles.
use vstd::prelude::*;

use crate::account::account_bytes;
use crate::account::lemma_account_bytes_injective;
use crate::account::AccountId;
use crate::env::Env;
use crate::hook::HostAbort;
use crate::slot::lemma_path_key_injective;
use crate::slot::lemma_path_key_snoc;
use crate::slot::path_key;
use crate::slot::tag_byte;
use crate::slot::DefaultStorageKey;
use crate::slot::Slot;
use crate::store::contains_key;
use crate::store::lookup;
use crate::store::spec_remove;
use crate::store::spec_write;

verus! {

/// The key of the marker slot recording that `a` holds `role`.
pub open spec fn role_key(role: u8, a: Seq<char>) -> Seq<u8> {
    path_key(tag_byte(DefaultStorageKey::Rbac), seq![(role, account_bytes(a))])
}

/// Whether `a` holds `role`.
pub open spec fn spec_has_role(sv: Seq<(Seq<u8>, Seq<u8>)>, role: u8, a: Seq<char>) -> bool {
    contains_key(sv, role_key(role, a))
}

/// Distinct `(role, account)` pairs mark distinct slots.
pub proof fn lemma_role_keys_distinct(r1: u8, a: Seq<char>, r2: u8, b: Seq<char>)
    requires
        crate::nep141::account_view_wf(a),
        crate::nep141::account_view_wf(b),
        (r1, a) != (r2, b),
    ensures
        role_key(r1, a) != role_key(r2, b),
{
    let p1 = seq![(r1, account_bytes(a))];
    let p2 = seq![(r2, account_bytes(b))];
    assert(account_bytes(a).len() == a.len());
    assert(account_bytes(b).len() == b.len());
    if a != b {
        lemma_account_bytes_injective(a, b);
        assert(p1 != p2) by {
            assert(p1[0].1 != p2[0].1);
        };
    } else {
        assert(p1 != p2) by {
            assert(p1[0].0 != p2[0].0);
        };
    }
    lemma_path_key_injective(
        tag_byte(DefaultStorageKey::Rbac),
        p1,
        tag_byte(DefaultStorageKey::Rbac),
        p2,
    );
}

/// Role-based access control operations. Roles are one-byte tags chosen by
/// the contract author.
pub struct Rbac;

impl Rbac {
    /// The marker slot for `(role, account_id)`.
    pub fn slot_role(account_id: &AccountId, role: u8) -> (s: Slot)
        ensures
            s@ == role_key(role, account_id@),
    {
        proof {
            use_type_invariant(account_id);
        }
        let bytes = account_id.key_bytes();
        let s = Slot::root(DefaultStorageKey::Rbac).field(role, bytes.as_slice());
        proof {
            lemma_path_key_snoc(
                tag_byte(DefaultStorageKey::Rbac),
                Seq::empty(),
                role,
                account_bytes(account_id@),
            );
            assert(Seq::empty().push((role, account_bytes(account_id@))) =~= seq![
                (role, account_bytes(account_id@)),
            ]);
            assert(s@ =~= role_key(role, account_id@));
        }
        s
    }

    /// Whether `account_id` holds `role`.
    pub fn has_role(env: &Env, account_id: &AccountId, role: u8) -> (r: bool)
        ensures
            r == spec_has_role(env.store@, role, account_id@),
    {
        Self::slot_role(account_id, role).is_exist(&env.store)
    }

    /// Grants `role` to `account_id`.
    pub fn add_role(env: &mut Env, account_id: &AccountId, role: u8)
        ensures
            final(env).store@ == spec_write(
                old(env).store@,
                role_key(role, account_id@),
                seq![1u8],
            ),
            spec_has_role(final(env).store@, role, account_id@),
            forall|k: Seq<u8>| k != role_key(role, account_id@) ==> #[trigger] lookup(
                final(env).store@,
                k,
            ) == lookup(old(env).store@, k),
            final(env).logs == old(env).logs,
            final(env).promises == old(env).promises,
            crate::env::same_context(*old(env), *final(env)),
    {
        proof {
            use_type_invariant(&env.store);
            crate::store::lemma_write(env.store@, role_key(role, account_id@), seq![1u8]);
        }
        let mut flag: Vec<u8> = Vec::new();
        flag.push(1u8);
        proof {
            assert(flag@ =~= seq![1u8]);
        }
        Self::slot_role(account_id, role).write(&mut env.store, flag);
    }

    /// Revokes `role` from `account_id`.
    pub fn remove_role(env: &mut Env, account_id: &AccountId, role: u8)
        ensures
            final(env).store@ == spec_remove(old(env).store@, role_key(role, account_id@)),
            !spec_has_role(final(env).store@, role, account_id@),
            forall|k: Seq<u8>| k != role_key(role, account_id@) ==> #[trigger] lookup(
                final(env).store@,
                k,
            ) == lookup(old(env).store@, k),
            final(env).logs == old(env).logs,
            final(env).promises == old(env).promises,
            crate::env::same_context(*old(env), *final(env)),
    {
        proof {
            use_type_invariant(&env.store);
            crate::store::lemma_remove(env.store@, role_key(role, account_id@));
        }
        Self::slot_role(account_id, role).remove(&mut env.store);
    }

    /// Succeeds exactly when the caller holds `role`; the abort message is
    /// the frozen wire-level text.
    pub fn require_role(env: &Env, role: u8) -> (r: Result<(), HostAbort>)
        ensures
            r is Ok <==> spec_has_role(env.store@, role, env.predecessor@),
            r matches Err(a) ==> a.message@ == ("Unauthorized")@,
    {
        let caller = env.predecessor.clone();
        if Self::has_role(env, &caller, role) {
            Ok(())
        } else {
            Err(
                HostAbort {
                    message: <String as vstd::string::StringExecFns>::from_str("Unauthorized"),
                },
            )
        }
    }
}

} // verus!
