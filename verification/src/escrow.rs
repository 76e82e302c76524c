//! Escrow component: locks an opaque state value under an identifier until
//! it is explicitly unlocked.
use vstd::prelude::*;

use crate::bytes::le_bytes;
use crate::bytes::lemma_pow256_16;
use crate::env::Env;
use crate::hook::HostAbort;
use crate::slot::lemma_path_key_injective;
use crate::slot::lemma_path_key_snoc;
use crate::slot::path_key;
use crate::slot::tag_byte;
use crate::slot::DefaultStorageKey;
use crate::slot::Slot;
use crate::store::lookup;
use crate::store::spec_remove;
use crate::store::spec_write;

verus! {

/// Field discriminant of per-identifier lock slots under the component root.
pub const LOCKED_TAG: u8 = 0;

/// The key of the lock slot of identifier `id`.
pub open spec fn escrow_key(id: nat) -> Seq<u8> {
    path_key(tag_byte(DefaultStorageKey::Escrow), seq![(LOCKED_TAG, le_bytes(id, 8))])
}

/// Whether `id` is locked, and what state bytes it was locked with.
pub open spec fn spec_locked(sv: Seq<(Seq<u8>, Seq<u8>)>, id: nat) -> Option<Seq<u8>> {
    lookup(sv, escrow_key(id))
}

/// Distinct identifiers lock distinct slots.
pub proof fn lemma_escrow_keys_distinct(a: nat, b: nat)
    requires
        a < 0x1_0000_0000_0000_0000,
        b < 0x1_0000_0000_0000_0000,
        a != b,
    ensures
        escrow_key(a) != escrow_key(b),
{
    lemma_pow256_16();
    crate::bytes::lemma_le_bytes_len(a, 8);
    crate::bytes::lemma_le_bytes_len(b, 8);
    crate::bytes::lemma_le_bytes_injective(a, b, 8);
    let pa = seq![(LOCKED_TAG, le_bytes(a, 8))];
    let pb = seq![(LOCKED_TAG, le_bytes(b, 8))];
    assert(pa != pb) by {
        assert(pa[0].1 != pb[0].1);
    };
    lemma_path_key_injective(
        tag_byte(DefaultStorageKey::Escrow),
        pa,
        tag_byte(DefaultStorageKey::Escrow),
        pb,
    );
}

/// Escrow operations over the lock slots.
pub struct Escrow;

impl Escrow {
    /// The lock slot of identifier `id`.
    pub fn slot_locked(id: u64) -> (s: Slot)
        ensures
            s@ == escrow_key(id as nat),
    {
        let bytes = crate::bytes::u64_to_le_bytes(id);
        let s = Slot::root(DefaultStorageKey::Escrow).field(LOCKED_TAG, bytes.as_slice());
        proof {
            crate::bytes::lemma_le_bytes_len(id as nat, 8);
            lemma_path_key_snoc(
                tag_byte(DefaultStorageKey::Escrow),
                Seq::empty(),
                LOCKED_TAG,
                le_bytes(id as nat, 8),
            );
            assert(Seq::empty().push((LOCKED_TAG, le_bytes(id as nat, 8))) =~= seq![
                (LOCKED_TAG, le_bytes(id as nat, 8)),
            ]);
            assert(s@ =~= escrow_key(id as nat));
        }
        s
    }

    /// Whether `id` is locked.
    pub fn is_locked(env: &Env, id: u64) -> (r: bool)
        ensures
            r == (spec_locked(env.store@, id as nat) is Some),
    {
        Self::slot_locked(id).is_exist(&env.store)
    }

    /// Locks `id` with the given state bytes; fails when already locked.
    pub fn lock(env: &mut Env, id: u64, state: Vec<u8>) -> (r: Result<(), HostAbort>)
        ensures
            spec_locked(old(env).store@, id as nat) is Some ==> r is Err && *final(env) == *old(
                env,
            ) && (r matches Err(a) && a.message@ == ("Already locked")@),
            spec_locked(old(env).store@, id as nat) is None ==> r is Ok && final(env).store@
                == spec_write(old(env).store@, escrow_key(id as nat), state@) && spec_locked(
                final(env).store@,
                id as nat,
            ) == Some(state@),
            final(env).logs == old(env).logs,
            final(env).promises == old(env).promises,
            crate::env::same_context(*old(env), *final(env)),
    {
        let slot = Self::slot_locked(id);
        if slot.is_exist(&env.store) {
            return Err(
                HostAbort {
                    message: <String as vstd::string::StringExecFns>::from_str("Already locked"),
                },
            );
        }
        proof {
            use_type_invariant(&env.store);
            crate::store::lemma_write(env.store@, escrow_key(id as nat), state@);
        }
        slot.write(&mut env.store, state);
        Ok(())
    }

    /// Hands the locked state back and releases the lock; fails when `id` is
    /// not locked.
    pub fn unlock(env: &mut Env, id: u64) -> (r: Result<Vec<u8>, HostAbort>)
        ensures
            spec_locked(old(env).store@, id as nat) is None ==> r is Err && *final(env) == *old(
                env,
            ) && (r matches Err(a) && a.message@ == ("Lock does not exist")@),
            spec_locked(old(env).store@, id as nat) is Some ==> (r matches Ok(state) && state@
                == spec_locked(old(env).store@, id as nat)->Some_0 && final(env).store@
                == spec_remove(old(env).store@, escrow_key(id as nat)) && spec_locked(
                final(env).store@,
                id as nat,
            ) is None),
            final(env).logs == old(env).logs,
            final(env).promises == old(env).promises,
            crate::env::same_context(*old(env), *final(env)),
    {
        let slot = Self::slot_locked(id);
        let state = match slot.read(&env.store) {
            Some(v) => v,
            None => {
                return Err(
                    HostAbort {
                        message: <String as vstd::string::StringExecFns>::from_str(
                            "Lock does not exist",
                        ),
                    },
                );
            },
        };
        proof {
            use_type_invariant(&env.store);
            crate::store::lemma_remove(env.store@, escrow_key(id as nat));
        }
        slot.remove(&mut env.store);
        Ok(state)
    }
}

} // verus!
