//! Ownership component: one slot holding the owner's account bytes, a guard
//! predicate over it, admin mutation, and a hook restricting wrapped
//! operations to the owner.
use vstd::prelude::*;

use crate::account::account_bytes;
use crate::account::AccountId;
use crate::env::Env;
use crate::hook::HostAbort;
use crate::hook::Hook;
use crate::slot::path_key;
use crate::slot::tag_byte;
use crate::slot::DefaultStorageKey;
use crate::slot::Slot;
use crate::store::lookup;
use crate::store::spec_write;

verus! {

/// The key of the owner slot: the component's root slot itself.
pub open spec fn owner_key() -> Seq<u8> {
    path_key(tag_byte(DefaultStorageKey::Owner), Seq::empty())
}

/// The stored owner, as account bytes.
pub open spec fn spec_owner(sv: Seq<(Seq<u8>, Seq<u8>)>) -> Option<Seq<u8>> {
    lookup(sv, owner_key())
}

/// Whether `a` is the stored owner.
pub open spec fn spec_is_owner(sv: Seq<(Seq<u8>, Seq<u8>)>, a: Seq<char>) -> bool {
    spec_owner(sv) == Some(account_bytes(a))
}

/// Ownership component operations.
pub struct Owner;

impl Owner {
    /// The slot holding the owner account.
    pub fn slot_owner() -> (s: Slot)
        ensures
            s@ == owner_key(),
    {
        let s = Slot::root(DefaultStorageKey::Owner);
        proof {
            assert(s@ =~= owner_key());
        }
        s
    }

    /// Installs the owner. Fails when an owner is already set.
    pub fn init(env: &mut Env, owner_id: &AccountId) -> (r: Result<(), HostAbort>)
        ensures
            spec_owner(old(env).store@) is Some ==> r is Err && *final(env) == *old(env),
            spec_owner(old(env).store@) is None ==> r is Ok && final(env).store@ == spec_write(
                old(env).store@,
                owner_key(),
                account_bytes(owner_id@),
            ) && spec_is_owner(final(env).store@, owner_id@),
            final(env).logs == old(env).logs,
            final(env).promises == old(env).promises,
            crate::env::same_context(*old(env), *final(env)),
    {
        let slot = Self::slot_owner();
        if slot.is_exist(&env.store) {
            return Err(
                HostAbort {
                    message: <String as vstd::string::StringExecFns>::from_str(
                        "Owner already initialized",
                    ),
                },
            );
        }
        proof {
            use_type_invariant(&env.store);
            crate::store::lemma_write(env.store@, owner_key(), account_bytes(owner_id@));
        }
        slot.write(&mut env.store, owner_id.key_bytes());
        Ok(())
    }

    /// The stored owner's account bytes, if an owner is set.
    pub fn owner_bytes(env: &Env) -> (r: Option<Vec<u8>>)
        ensures
            r.deep_view() == spec_owner(env.store@),
    {
        Self::slot_owner().read(&env.store)
    }

    /// Succeeds exactly when the caller is the stored owner; the abort
    /// message is the frozen wire-level text.
    pub fn require_owner(env: &Env) -> (r: Result<(), HostAbort>)
        ensures
            r is Ok <==> spec_is_owner(env.store@, env.predecessor@),
            r matches Err(a) ==> a.message@ == ("Owner only")@,
    {
        let caller_bytes = env.predecessor.key_bytes();
        let stored = Self::owner_bytes(env);
        let ok = match &stored {
            Some(bytes) => {
                proof {
                    assert(stored.deep_view() == Some(bytes@));
                }
                crate::store::bytes_eq(bytes.as_slice(), caller_bytes.as_slice())
            },
            None => {
                proof {
                    assert(stored.deep_view() == Option::<Seq<u8>>::None);
                }
                false
            },
        };
        if ok {
            Ok(())
        } else {
            Err(
                HostAbort {
                    message: <String as vstd::string::StringExecFns>::from_str("Owner only"),
                },
            )
        }
    }

    /// Hands ownership to another account. Only the current owner may.
    pub fn update_owner(env: &mut Env, new_owner_id: &AccountId) -> (r: Result<(), HostAbort>)
        ensures
            !spec_is_owner(old(env).store@, old(env).predecessor@) ==> r is Err && *final(env)
                == *old(env),
            spec_is_owner(old(env).store@, old(env).predecessor@) ==> r is Ok && final(env).store@
                == spec_write(old(env).store@, owner_key(), account_bytes(new_owner_id@))
                && spec_is_owner(final(env).store@, new_owner_id@),
            final(env).logs == old(env).logs,
            final(env).promises == old(env).promises,
            crate::env::same_context(*old(env), *final(env)),
    {
        match Self::require_owner(env) {
            Ok(()) => {},
            Err(a) => {
                return Err(a);
            },
        }
        proof {
            use_type_invariant(&env.store);
            crate::store::lemma_write(env.store@, owner_key(), account_bytes(new_owner_id@));
        }
        Self::slot_owner().write(&mut env.store, new_owner_id.key_bytes());
        Ok(())
    }
}

/// Hook that aborts any wrapped operation unless the caller is the owner,
/// and is transparent otherwise.
pub struct OnlyOwner;

impl<A> Hook<Env, A> for OnlyOwner {
    fn hook<R, F: FnOnce(&mut Env) -> Result<R, HostAbort>>(
        contract: &mut Env,
        args: &A,
        f: F,
    ) -> (r: Result<R, HostAbort>)
        ensures
            !spec_is_owner(old(contract).store@, old(contract).predecessor@) ==> r is Err
                && *final(contract) == *old(contract),
            spec_is_owner(old(contract).store@, old(contract).predecessor@) ==> exists|
                x: &mut Env,
            |
                #[trigger] call_ensures(f, (x,), r) && mut_ref_current(x) == *old(contract)
                    && mut_ref_future(x) == *final(contract),
    {
        match Owner::require_owner(contract) {
            Ok(()) => f(contract),
            Err(a) => Err(a),
        }
    }
}

} // verus!
