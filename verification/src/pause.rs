//! Pause component: a single flag slot, guard predicates over it, and a hook
//! that stops any wrapped operation while the contract is paused.
use vstd::prelude::*;

use crate::env::Env;
use crate::hook::HostAbort;
use crate::hook::Hook;
use crate::slot::path_key;
use crate::slot::tag_byte;
use crate::slot::DefaultStorageKey;
use crate::slot::Slot;
use crate::store::contains_key;
use crate::store::lookup;
use crate::store::spec_remove;
use crate::store::spec_write;

verus! {

/// The key of the pause flag: the component's root slot itself.
pub open spec fn pause_key() -> Seq<u8> {
    path_key(tag_byte(DefaultStorageKey::Pause), Seq::empty())
}

/// Whether the contract is paused: the flag slot holds a value.
pub open spec fn spec_paused(sv: Seq<(Seq<u8>, Seq<u8>)>) -> bool {
    contains_key(sv, pause_key())
}

/// Pause component operations over the flag slot.
pub struct Pause;

impl Pause {
    /// The slot holding the pause flag.
    pub fn slot_paused() -> (s: Slot)
        ensures
            s@ == pause_key(),
    {
        let s = Slot::root(DefaultStorageKey::Pause);
        proof {
            assert(s@ =~= pause_key());
        }
        s
    }

    /// Whether the contract is paused.
    pub fn is_paused(env: &Env) -> (r: bool)
        ensures
            r == spec_paused(env.store@),
    {
        Self::slot_paused().is_exist(&env.store)
    }

    /// Pauses the contract.
    pub fn pause(env: &mut Env)
        ensures
            final(env).store@ == spec_write(old(env).store@, pause_key(), seq![1u8]),
            spec_paused(final(env).store@),
            forall|k: Seq<u8>| k != pause_key() ==> #[trigger] lookup(final(env).store@, k)
                == lookup(old(env).store@, k),
            final(env).logs == old(env).logs,
            final(env).promises == old(env).promises,
            crate::env::same_context(*old(env), *final(env)),
    {
        proof {
            use_type_invariant(&env.store);
            crate::store::lemma_write(env.store@, pause_key(), seq![1u8]);
        }
        let mut flag: Vec<u8> = Vec::new();
        flag.push(1u8);
        proof {
            assert(flag@ =~= seq![1u8]);
        }
        Self::slot_paused().write(&mut env.store, flag);
    }

    /// Unpauses the contract.
    pub fn unpause(env: &mut Env)
        ensures
            final(env).store@ == spec_remove(old(env).store@, pause_key()),
            !spec_paused(final(env).store@),
            forall|k: Seq<u8>| k != pause_key() ==> #[trigger] lookup(final(env).store@, k)
                == lookup(old(env).store@, k),
            final(env).logs == old(env).logs,
            final(env).promises == old(env).promises,
            crate::env::same_context(*old(env), *final(env)),
    {
        proof {
            use_type_invariant(&env.store);
            crate::store::lemma_remove(env.store@, pause_key());
        }
        Self::slot_paused().remove(&mut env.store);
    }

    /// Succeeds exactly when the contract is not paused; the abort message is
    /// the frozen wire-level text.
    pub fn require_unpaused(env: &Env) -> (r: Result<(), HostAbort>)
        ensures
            r is Ok <==> !spec_paused(env.store@),
            r matches Err(a) ==> a.message@ == ("Disallowed while contract is paused")@,
    {
        if Self::is_paused(env) {
            Err(
                HostAbort {
                    message: <String as vstd::string::StringExecFns>::from_str(
                        "Disallowed while contract is paused",
                    ),
                },
            )
        } else {
            Ok(())
        }
    }

    /// Succeeds exactly when the contract is paused.
    pub fn require_paused(env: &Env) -> (r: Result<(), HostAbort>)
        ensures
            r is Ok <==> spec_paused(env.store@),
            r matches Err(a) ==> a.message@ == ("Disallowed while contract is unpaused")@,
    {
        if Self::is_paused(env) {
            Ok(())
        } else {
            Err(
                HostAbort {
                    message: <String as vstd::string::StringExecFns>::from_str(
                        "Disallowed while contract is unpaused",
                    ),
                },
            )
        }
    }
}

/// Hook that aborts any wrapped operation while the contract is paused, and
/// is transparent otherwise.
pub struct Pausable;

impl<A> Hook<Env, A> for Pausable {
    fn hook<R, F: FnOnce(&mut Env) -> Result<R, HostAbort>>(
        contract: &mut Env,
        args: &A,
        f: F,
    ) -> (r: Result<R, HostAbort>)
        ensures
            spec_paused(old(contract).store@) ==> r is Err && *final(contract) == *old(contract),
            !spec_paused(old(contract).store@) ==> exists|x: &mut Env|
                #[trigger] call_ensures(f, (x,), r) && mut_ref_current(x) == *old(contract)
                    && mut_ref_future(x) == *final(contract),
    {
        match Pause::require_unpaused(contract) {
            Ok(()) => f(contract),
            Err(a) => Err(a),
        }
    }
}

} // verus!
