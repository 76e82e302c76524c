//! Storage accounting: per-account deposit, lock and refund bookkeeping.
//!
//! Each registered account stores a record of its deposited total and the
//! part still available (the rest is locked for on-chain storage); the
//! component also stores contract-wide registration bounds. The component
//! invariant: for every registered account, `available <= total` and
//! `min <= total <= max`.
use vstd::prelude::*;

use crate::account::account_bytes;
use crate::account::lemma_account_bytes_injective;
use crate::account::AccountId;
use crate::bytes::le_bytes;
use crate::bytes::le_value;
use crate::bytes::lemma_le_round_trip;
use crate::bytes::lemma_le_value_bound;
use crate::bytes::lemma_pow256_16;
use crate::bytes::pow256;
use crate::bytes::u128_from_le_bytes;
use crate::bytes::u128_to_le_bytes;
use crate::env::Env;
use crate::hook::HostAbort;
use crate::nep141::account_view_wf;
use crate::slot::lemma_path_key_injective;
use crate::slot::lemma_path_key_snoc;
use crate::slot::path_key;
use crate::slot::tag_byte;
use crate::slot::DefaultStorageKey;
use crate::slot::Slot;
use crate::store::lemma_write;
use crate::store::lookup;
use crate::store::spec_remove;
use crate::store::spec_write;

verus! {

/// Field discriminant of the bounds slot under the component root.
pub const BOUNDS_TAG: u8 = 0;

/// Field discriminant of per-account record slots under the component root.
pub const STORAGE_ACCOUNT_TAG: u8 = 1;

/// The key of the registration-bounds slot.
pub open spec fn n145_bounds_key() -> Seq<u8> {
    path_key(tag_byte(DefaultStorageKey::Nep145), seq![(BOUNDS_TAG, Seq::<u8>::empty())])
}

/// The key of the storage record of account `a`.
pub open spec fn n145_account_key(a: Seq<char>) -> Seq<u8> {
    path_key(tag_byte(DefaultStorageKey::Nep145), seq![(STORAGE_ACCOUNT_TAG, account_bytes(a))])
}

/// Distinct accounts own distinct record slots, and none collides with the
/// bounds slot.
pub proof fn lemma_n145_keys_distinct(a: Seq<char>, b: Seq<char>)
    requires
        account_view_wf(a),
        account_view_wf(b),
    ensures
        a != b ==> n145_account_key(a) != n145_account_key(b),
        n145_account_key(a) != n145_bounds_key(),
{
    let pa = seq![(STORAGE_ACCOUNT_TAG, account_bytes(a))];
    let pb = seq![(STORAGE_ACCOUNT_TAG, account_bytes(b))];
    let pt = seq![(BOUNDS_TAG, Seq::<u8>::empty())];
    assert(account_bytes(a).len() == a.len());
    assert(account_bytes(b).len() == b.len());
    if a != b {
        lemma_account_bytes_injective(a, b);
        assert(pa != pb) by {
            assert(pa[0].1 != pb[0].1);
        };
        lemma_path_key_injective(
            tag_byte(DefaultStorageKey::Nep145),
            pa,
            tag_byte(DefaultStorageKey::Nep145),
            pb,
        );
    }
    assert(pa != pt) by {
        assert(pa[0].0 != pt[0].0);
    };
    lemma_path_key_injective(
        tag_byte(DefaultStorageKey::Nep145),
        pa,
        tag_byte(DefaultStorageKey::Nep145),
        pt,
    );
}

/// A storage account record: deposited total and the part not locked.
#[derive(Clone, Copy, PartialEq, Eq, Structural, Debug)]
pub struct StorageBalance {
    /// Deposited native-token units.
    pub total: u128,
    /// Units not pledged to storage: `total` minus the locked part.
    pub available: u128,
}

impl View for StorageBalance {
    type V = (nat, nat);

    open spec fn view(&self) -> (nat, nat) {
        (self.total as nat, self.available as nat)
    }
}

impl DeepView for StorageBalance {
    type V = (nat, nat);

    open spec fn deep_view(&self) -> (nat, nat) {
        (self.total as nat, self.available as nat)
    }
}

/// Contract-wide registration bounds on the deposited total.
#[derive(Clone, Copy, PartialEq, Eq, Structural, Debug)]
pub struct StorageBalanceBounds {
    /// Least total a registered account must keep deposited.
    pub min: u128,
    /// Largest total an account may deposit, if bounded.
    pub max: Option<u128>,
}

/// The 32-byte encoding of a record: total, then available.
pub open spec fn record_bytes(total: nat, available: nat) -> Seq<u8> {
    le_bytes(total, 16) + le_bytes(available, 16)
}

/// The encoding of bounds: the minimum, then a tagged optional maximum.
pub open spec fn bounds_bytes(min: nat, max: Option<nat>) -> Seq<u8> {
    match max {
        None => le_bytes(min, 16) + seq![0u8],
        Some(m) => le_bytes(min, 16) + seq![1u8] + le_bytes(m, 16),
    }
}

/// The record stored for `a`: `(total, available)` when registered.
pub open spec fn spec_storage_balance(sv: Seq<(Seq<u8>, Seq<u8>)>, a: Seq<char>) -> Option<
    (nat, nat),
> {
    match lookup(sv, n145_account_key(a)) {
        Some(v) => Some((le_value(v.subrange(0, 16)), le_value(v.subrange(16, 32)))),
        None => None,
    }
}

/// The stored bounds; unbounded from zero when the slot is empty.
pub open spec fn spec_bounds(sv: Seq<(Seq<u8>, Seq<u8>)>) -> (nat, Option<nat>) {
    match lookup(sv, n145_bounds_key()) {
        Some(v) => (
            le_value(v.subrange(0, 16)),
            if v.len() == 33 {
                Some(le_value(v.subrange(17, 33)))
            } else {
                None
            },
        ),
        None => (0, None),
    }
}

/// Shape of the component's stored values: records hold 32 bytes; the bounds
/// slot holds a 17- or 33-byte value.
pub open spec fn n145_bytes_wf(sv: Seq<(Seq<u8>, Seq<u8>)>) -> bool {
    &&& (match lookup(sv, n145_bounds_key()) {
        Some(v) => v.len() == 17 || v.len() == 33,
        None => true,
    })
    &&& (forall|a: Seq<char>|
        account_view_wf(a) ==> match #[trigger] lookup(sv, n145_account_key(a)) {
            Some(v) => v.len() == 32,
            None => true,
        })
}

/// The storage-accounting invariant: every registered account keeps
/// `available <= total` and its total inside the bounds.
pub open spec fn storage_invariant(sv: Seq<(Seq<u8>, Seq<u8>)>) -> bool {
    forall|a: Seq<char>|
        account_view_wf(a) ==> match #[trigger] spec_storage_balance(sv, a) {
            Some(rec) => {
                let min = spec_bounds(sv).0;
                let max = spec_bounds(sv).1;
                &&& rec.1 <= rec.0
                &&& min <= rec.0
                &&& (max matches Some(m) ==> rec.0 <= m)
            },
            None => true,
        }
}


/// The empty store satisfies the component's shapes and its invariant: no
/// bounds, no records.
pub proof fn lemma_storage_initial()
    ensures
        n145_bytes_wf(Seq::<(Seq<u8>, Seq<u8>)>::empty()),
        storage_invariant(Seq::<(Seq<u8>, Seq<u8>)>::empty()),
{
}

/// Slot layout of the storage-accounting component.
pub struct Nep145ControllerInternal;

impl Nep145ControllerInternal {
    /// Root storage slot.
    pub fn root() -> (s: Slot)
        ensures
            s@ =~= path_key(tag_byte(DefaultStorageKey::Nep145), Seq::empty()),
    {
        Slot::root(DefaultStorageKey::Nep145)
    }

    /// Slot holding the registration bounds.
    pub fn slot_balance_bounds() -> (s: Slot)
        ensures
            s@ == n145_bounds_key(),
    {
        let empty: Vec<u8> = Vec::new();
        let s = Self::root().field(BOUNDS_TAG, empty.as_slice());
        proof {
            lemma_path_key_snoc(
                tag_byte(DefaultStorageKey::Nep145),
                Seq::empty(),
                BOUNDS_TAG,
                Seq::<u8>::empty(),
            );
            assert(Seq::empty().push((BOUNDS_TAG, Seq::<u8>::empty())) =~= seq![
                (BOUNDS_TAG, Seq::<u8>::empty()),
            ]);
            assert(s@ =~= n145_bounds_key());
        }
        s
    }

    /// Slot holding the storage record of `account_id`.
    pub fn slot_account(account_id: &AccountId) -> (s: Slot)
        ensures
            s@ == n145_account_key(account_id@),
    {
        proof {
            use_type_invariant(account_id);
        }
        let bytes = account_id.key_bytes();
        let s = Self::root().field(STORAGE_ACCOUNT_TAG, bytes.as_slice());
        proof {
            lemma_path_key_snoc(
                tag_byte(DefaultStorageKey::Nep145),
                Seq::empty(),
                STORAGE_ACCOUNT_TAG,
                account_bytes(account_id@),
            );
            assert(Seq::empty().push((STORAGE_ACCOUNT_TAG, account_bytes(account_id@))) =~= seq![
                (STORAGE_ACCOUNT_TAG, account_bytes(account_id@)),
            ]);
            assert(s@ =~= n145_account_key(account_id@));
        }
        s
    }
}

/// Encodes a record to its 32-byte form.
fn encode_record(balance: &StorageBalance) -> (r: Vec<u8>)
    ensures
        r@ == record_bytes(balance.total as nat, balance.available as nat),
        r@.len() == 32,
{
    let mut out = u128_to_le_bytes(balance.total);
    let mut tail = u128_to_le_bytes(balance.available);
    out.append(&mut tail);
    proof {
        assert(out@ =~= record_bytes(balance.total as nat, balance.available as nat));
    }
    out
}

/// A record's 32 bytes decode to its two counters.
proof fn lemma_record_round_trip(total: nat, available: nat)
    requires
        total < pow256(16),
        available < pow256(16),
    ensures
        record_bytes(total, available).len() == 32,
        le_value(record_bytes(total, available).subrange(0, 16)) == total,
        le_value(record_bytes(total, available).subrange(16, 32)) == available,
{
    lemma_le_round_trip(total, 16);
    lemma_le_round_trip(available, 16);
    assert(record_bytes(total, available).subrange(0, 16) =~= le_bytes(total, 16));
    assert(record_bytes(total, available).subrange(16, 32) =~= le_bytes(available, 16));
}

/// Reads the record stored at `slot`, if any. Aborts when the stored bytes
/// do not have the 32-byte shape.
fn read_record(store: &crate::store::Store, slot: &Slot) -> (r: Result<
    Option<StorageBalance>,
    HostAbort,
>)
    ensures
        match lookup(store@, slot@) {
            Some(v) => if v.len() == 32 {
                r matches Ok(rec) && rec matches Some(b) && b.total as nat == le_value(
                    v.subrange(0, 16),
                ) && b.available as nat == le_value(v.subrange(16, 32))
            } else {
                r is Err
            },
            None => r == Ok::<Option<StorageBalance>, HostAbort>(None),
        },
{
    let got = slot.read(store);
    proof {
        match &got {
            Some(b) => {
                assert(got.deep_view() == Some(b.deep_view()));
                assert(lookup(store@, slot@) == Some(b@));
            },
            None => {
                assert(got.deep_view() == Option::<Seq<u8>>::None);
            },
        }
    }
    match got {
        Some(bytes) => {
            if bytes.len() == 32 {
                let head = vstd::slice::slice_subrange(bytes.as_slice(), 0, 16);
                let tail = vstd::slice::slice_subrange(bytes.as_slice(), 16, 32);
                let total = u128_from_le_bytes(head);
                let available = u128_from_le_bytes(tail);
                Ok(Some(StorageBalance { total, available }))
            } else {
                Err(
                    HostAbort {
                        message: <String as vstd::string::StringExecFns>::from_str(
                            "stored record has an unexpected shape",
                        ),
                    },
                )
            }
        },
        None => Ok(None),
    }
}


/// Writing one account's record moves only that record: every other record,
/// and the bounds, stay put, and the shapes are kept.
proof fn lemma_record_write_frame(sv: Seq<(Seq<u8>, Seq<u8>)>, a: Seq<char>, t: nat, av: nat)
    requires
        crate::store::entries_wf(sv),
        n145_bytes_wf(sv),
        account_view_wf(a),
        t < pow256(16),
        av < pow256(16),
    ensures
        ({
            let out = spec_write(sv, n145_account_key(a), record_bytes(t, av));
            &&& crate::store::entries_wf(out)
            &&& n145_bytes_wf(out)
            &&& spec_storage_balance(out, a) == Some((t, av))
            &&& forall|b: Seq<char>|
                account_view_wf(b) && b != a ==> #[trigger] spec_storage_balance(out, b)
                    == spec_storage_balance(sv, b)
            &&& spec_bounds(out) == spec_bounds(sv)
        }),
{
    let k = n145_account_key(a);
    let bytes = record_bytes(t, av);
    lemma_record_round_trip(t, av);
    lemma_write(sv, k, bytes);
    let out = spec_write(sv, k, bytes);
    lemma_n145_keys_distinct(a, a);
    assert(lookup(out, n145_bounds_key()) == lookup(sv, n145_bounds_key()));
    assert forall|b: Seq<char>| account_view_wf(b) && b != a implies #[trigger] spec_storage_balance(
        out,
        b,
    ) == spec_storage_balance(sv, b) by {
        lemma_n145_keys_distinct(a, b);
        assert(lookup(out, n145_account_key(b)) == lookup(sv, n145_account_key(b)));
    }
    assert forall|b: Seq<char>| account_view_wf(b) implies match #[trigger] lookup(
        out,
        n145_account_key(b),
    ) {
        Some(v) => v.len() == 32,
        None => true,
    } by {
        if b != a {
            lemma_n145_keys_distinct(a, b);
        }
    }
}

/// Removing one account's record leaves everything else put.
proof fn lemma_record_remove_frame(sv: Seq<(Seq<u8>, Seq<u8>)>, a: Seq<char>)
    requires
        crate::store::entries_wf(sv),
        n145_bytes_wf(sv),
        account_view_wf(a),
    ensures
        ({
            let out = spec_remove(sv, n145_account_key(a));
            &&& crate::store::entries_wf(out)
            &&& n145_bytes_wf(out)
            &&& spec_storage_balance(out, a) is None
            &&& forall|b: Seq<char>|
                account_view_wf(b) && b != a ==> #[trigger] spec_storage_balance(out, b)
                    == spec_storage_balance(sv, b)
            &&& spec_bounds(out) == spec_bounds(sv)
            &&& (storage_invariant(sv) ==> storage_invariant(out))
        }),
{
    let k = n145_account_key(a);
    crate::store::lemma_remove(sv, k);
    let out = spec_remove(sv, k);
    lemma_n145_keys_distinct(a, a);
    assert(lookup(out, n145_bounds_key()) == lookup(sv, n145_bounds_key()));
    assert forall|b: Seq<char>| account_view_wf(b) && b != a implies #[trigger] spec_storage_balance(
        out,
        b,
    ) == spec_storage_balance(sv, b) by {
        lemma_n145_keys_distinct(a, b);
        assert(lookup(out, n145_account_key(b)) == lookup(sv, n145_account_key(b)));
    }
    assert forall|b: Seq<char>| account_view_wf(b) implies match #[trigger] lookup(
        out,
        n145_account_key(b),
    ) {
        Some(v) => v.len() == 32,
        None => true,
    } by {
        if b != a {
            lemma_n145_keys_distinct(a, b);
        }
    }
    if storage_invariant(sv) {
        assert forall|b: Seq<char>| account_view_wf(b) implies match #[trigger] spec_storage_balance(
            out,
            b,
        ) {
            Some(rec) => {
                let min = spec_bounds(out).0;
                let max = spec_bounds(out).1;
                rec.1 <= rec.0 && min <= rec.0 && (max matches Some(m) ==> rec.0 <= m)
            },
            None => true,
        } by {
            if b != a {
                assert(spec_storage_balance(sv, b) == spec_storage_balance(out, b));
            }
        }
    }
}

/// After a record write whose new record meets the bounds, the component
/// invariant still holds.
proof fn lemma_invariant_after_record_write(
    sv: Seq<(Seq<u8>, Seq<u8>)>,
    a: Seq<char>,
    t: nat,
    av: nat,
)
    requires
        crate::store::entries_wf(sv),
        n145_bytes_wf(sv),
        account_view_wf(a),
        t < pow256(16),
        av < pow256(16),
        storage_invariant(sv),
        av <= t,
        spec_bounds(sv).0 <= t,
        spec_bounds(sv).1 matches Some(m) ==> t <= m,
    ensures
        storage_invariant(spec_write(sv, n145_account_key(a), record_bytes(t, av))),
{
    lemma_record_write_frame(sv, a, t, av);
    let out = spec_write(sv, n145_account_key(a), record_bytes(t, av));
    assert forall|b: Seq<char>| account_view_wf(b) implies match #[trigger] spec_storage_balance(
        out,
        b,
    ) {
        Some(rec) => {
            let min = spec_bounds(out).0;
            let max = spec_bounds(out).1;
            rec.1 <= rec.0 && min <= rec.0 && (max matches Some(m) ==> rec.0 <= m)
        },
        None => true,
    } by {
        if b != a {
            assert(spec_storage_balance(sv, b) == spec_storage_balance(out, b));
        }
    }
}

/// Why a storage deposit was refused.
#[derive(Debug)]
pub enum StorageDepositError {
    /// The record's counters cannot take the amount.
    BalanceOverflow,
    /// The resulting total would sit below the registration minimum.
    MinimumBalanceUnderrun,
    /// The resulting total would sit above the registration maximum.
    MaximumBalanceOverrun,
}

/// Why a storage withdrawal was refused.
#[derive(Debug)]
pub enum StorageWithdrawError {
    /// The account has no storage record.
    AccountNotRegistered,
    /// The amount exceeds what is available.
    ExcessiveWithdrawal,
    /// The resulting total would sit below the registration minimum.
    MinimumBalanceUnderrun,
}

/// Why a storage lock was refused.
#[derive(Debug)]
pub enum StorageLockError {
    /// The account has no storage record.
    AccountNotRegistered,
    /// The amount exceeds what is available.
    ExcessiveLock,
}

/// Why a storage unlock was refused.
#[derive(Debug)]
pub enum StorageUnlockError {
    /// The account has no storage record.
    AccountNotRegistered,
    /// Unlocking that much would exceed the deposited total.
    ExcessiveUnlock,
}

/// Why an unforced unregistration was refused.
#[derive(Debug)]
pub enum StorageUnregisterError {
    /// The account has no storage record.
    AccountNotRegistered,
    /// Part of the deposit is still locked.
    UnregisterWithLockedBalance,
}

/// Why a forced unregistration was refused.
#[derive(Debug)]
pub enum StorageForceUnregisterError {
    /// The account has no storage record.
    AccountNotRegistered,
}

/// The argument handed to the force-unregister hook.
pub struct Nep145ForceUnregister {
    /// The account being purged.
    pub account_id: AccountId,
    /// Its storage record at the moment of the purge.
    pub balance: StorageBalance,
}

/// Storage-accounting operations.
pub struct Nep145Controller;

impl Nep145Controller {
    /// The storage record of `account_id`, when registered.
    pub fn get_storage_balance(env: &Env, account_id: &AccountId) -> (r: Result<
        Option<StorageBalance>,
        HostAbort,
    >)
        ensures
            n145_bytes_wf(env.store@) ==> (r matches Ok(rec) && rec.deep_view()
                == spec_storage_balance(env.store@, account_id@)),
    {
        proof {
            use_type_invariant(account_id);
        }
        let slot = Nep145ControllerInternal::slot_account(account_id);
        let r = read_record(&env.store, &slot);
        proof {
            if n145_bytes_wf(env.store@) {
                match r {
                    Ok(rec) => {
                        match rec {
                            Some(b) => {
                                assert(rec.deep_view() == Some(b.deep_view()));
                            },
                            None => {},
                        }
                    },
                    Err(_) => {},
                }
            }
        }
        r
    }

    /// Installs the registration bounds.
    pub fn set_storage_balance_bounds(env: &mut Env, bounds: &StorageBalanceBounds)
        ensures
            final(env).store@ == spec_write(
                old(env).store@,
                n145_bounds_key(),
                bounds_bytes(
                    bounds.min as nat,
                    match bounds.max {
                        Some(m) => Some(m as nat),
                        None => None,
                    },
                ),
            ),
            spec_bounds(final(env).store@) == (
                bounds.min as nat,
                match bounds.max {
                    Some(m) => Some(m as nat),
                    None => None,
                },
            ),
            forall|b: Seq<char>|
                account_view_wf(b) ==> #[trigger] spec_storage_balance(final(env).store@, b)
                    == spec_storage_balance(old(env).store@, b),
            n145_bytes_wf(old(env).store@) ==> n145_bytes_wf(final(env).store@),
            final(env).logs == old(env).logs,
            final(env).promises == old(env).promises,
            crate::env::same_context(*old(env), *final(env)),
    {
        let ghost maxview: Option<nat> = match bounds.max {
            Some(m) => Some(m as nat),
            None => None,
        };
        let mut bytes = u128_to_le_bytes(bounds.min);
        match bounds.max {
            Some(m) => {
                bytes.push(1u8);
                let mut tail = u128_to_le_bytes(m);
                bytes.append(&mut tail);
            },
            None => {
                bytes.push(0u8);
            },
        }
        proof {
            assert(bytes@ =~= bounds_bytes(bounds.min as nat, maxview));
            use_type_invariant(&env.store);
            lemma_write(env.store@, n145_bounds_key(), bytes@);
            lemma_pow256_16();
            lemma_le_round_trip(bounds.min as nat, 16);
            match maxview {
                Some(m) => {
                    lemma_le_round_trip(m, 16);
                    assert(bounds_bytes(bounds.min as nat, maxview).subrange(0, 16) =~= le_bytes(
                        bounds.min as nat,
                        16,
                    ));
                    assert(bounds_bytes(bounds.min as nat, maxview).subrange(17, 33) =~= le_bytes(
                        m,
                        16,
                    ));
                },
                None => {
                    assert(bounds_bytes(bounds.min as nat, maxview).subrange(0, 16) =~= le_bytes(
                        bounds.min as nat,
                        16,
                    ));
                },
            }
            let sv = env.store@;
            let out = spec_write(sv, n145_bounds_key(), bytes@);
            assert forall|b: Seq<char>| account_view_wf(b) implies #[trigger] spec_storage_balance(
                out,
                b,
            ) == spec_storage_balance(sv, b) by {
                lemma_n145_keys_distinct(b, b);
                assert(lookup(out, n145_account_key(b)) == lookup(sv, n145_account_key(b)));
            }
            if n145_bytes_wf(sv) {
                assert forall|b: Seq<char>| account_view_wf(b) implies match #[trigger] lookup(
                    out,
                    n145_account_key(b),
                ) {
                    Some(v) => v.len() == 32,
                    None => true,
                } by {
                    lemma_n145_keys_distinct(b, b);
                }
            }
        }
        Nep145ControllerInternal::slot_balance_bounds().write(&mut env.store, bytes);
    }

    /// The registration bounds; unbounded from zero before they are set.
    pub fn get_storage_balance_bounds(env: &Env) -> (r: Result<StorageBalanceBounds, HostAbort>)
        ensures
            n145_bytes_wf(env.store@) ==> (r matches Ok(b) && spec_bounds(env.store@) == (
                b.min as nat,
                match b.max {
                    Some(m) => Some(m as nat),
                    None => None,
                },
            )),
    {
        let slot = Nep145ControllerInternal::slot_balance_bounds();
        let got = slot.read(&env.store);
        proof {
            match &got {
                Some(b) => {
                    assert(got.deep_view() == Some(b.deep_view()));
                    assert(lookup(env.store@, n145_bounds_key()) == Some(b@));
                },
                None => {
                    assert(got.deep_view() == Option::<Seq<u8>>::None);
                },
            }
        }
        match got {
            Some(bytes) => {
                if bytes.len() == 17 {
                    let head = vstd::slice::slice_subrange(bytes.as_slice(), 0, 16);
                    let min = u128_from_le_bytes(head);
                    Ok(StorageBalanceBounds { min, max: None })
                } else if bytes.len() == 33 {
                    let head = vstd::slice::slice_subrange(bytes.as_slice(), 0, 16);
                    let tail = vstd::slice::slice_subrange(bytes.as_slice(), 17, 33);
                    let min = u128_from_le_bytes(head);
                    let max = u128_from_le_bytes(tail);
                    Ok(StorageBalanceBounds { min, max: Some(max) })
                } else {
                    Err(
                        HostAbort {
                            message: <String as vstd::string::StringExecFns>::from_str(
                                "stored bounds have an unexpected shape",
                            ),
                        },
                    )
                }
            },
            None => Ok(StorageBalanceBounds { min: 0, max: None }),
        }
    }
}

/// The store after account `a`'s record is set to `(t, av)`.
pub open spec fn spec_record_write(sv: Seq<(Seq<u8>, Seq<u8>)>, a: Seq<char>, t: nat, av: nat) -> Seq<
    (Seq<u8>, Seq<u8>),
> {
    spec_write(sv, n145_account_key(a), record_bytes(t, av))
}

/// Effects shared by every storage-record mutation: only the store changes.
pub open spec fn n145_store_only(pre: Env, post: Env) -> bool {
    post.logs == pre.logs && post.promises == pre.promises && crate::env::same_context(pre, post)
}

/// What a successful record update guarantees: the new record is stored, all
/// other records and the bounds are untouched, shapes are kept, and the
/// component invariant survives whenever the new record meets the bounds.
pub open spec fn record_update_ok(pre: Env, post: Env, a: Seq<char>, t: nat, av: nat) -> bool {
    &&& post.store@ == spec_record_write(pre.store@, a, t, av)
    &&& spec_storage_balance(post.store@, a) == Some((t, av))
    &&& forall|b: Seq<char>|
        account_view_wf(b) && b != a ==> #[trigger] spec_storage_balance(post.store@, b)
            == spec_storage_balance(pre.store@, b)
    &&& spec_bounds(post.store@) == spec_bounds(pre.store@)
    &&& n145_bytes_wf(post.store@)
    &&& (storage_invariant(pre.store@) && av <= t && spec_bounds(pre.store@).0 <= t && (
    spec_bounds(pre.store@).1 matches Some(m) ==> t <= m) ==> storage_invariant(post.store@))
}

impl Nep145Controller {
    /// Writes the record `(t, av)` for `account_id`.
    fn write_record(env: &mut Env, account_id: &AccountId, balance: &StorageBalance)
        ensures
            n145_bytes_wf(old(env).store@) ==> record_update_ok(
                *old(env),
                *final(env),
                account_id@,
                balance.total as nat,
                balance.available as nat,
            ),
            n145_store_only(*old(env), *final(env)),
    {
        proof {
            use_type_invariant(account_id);
            use_type_invariant(&env.store);
            lemma_pow256_16();
            if n145_bytes_wf(env.store@) {
                lemma_record_write_frame(
                    env.store@,
                    account_id@,
                    balance.total as nat,
                    balance.available as nat,
                );
            }
            if n145_bytes_wf(env.store@) && storage_invariant(env.store@)
                && balance.available as nat <= balance.total as nat && spec_bounds(env.store@).0
                <= balance.total as nat && (spec_bounds(env.store@).1 matches Some(m)
                ==> balance.total as nat <= m) {
                lemma_invariant_after_record_write(
                    env.store@,
                    account_id@,
                    balance.total as nat,
                    balance.available as nat,
                );
            }
        }
        let slot = Nep145ControllerInternal::slot_account(account_id);
        let bytes = encode_record(balance);
        slot.write(&mut env.store, bytes);
    }

    /// Accepts a deposit of `amount` to the account's storage balance,
    /// registering the account if it is new, and enforcing the bounds on the
    /// resulting total.
    pub fn deposit_to_storage_account(env: &mut Env, account_id: &AccountId, amount: u128) -> (r:
        Result<Result<StorageBalance, StorageDepositError>, HostAbort>)
        ensures
            n145_store_only(*old(env), *final(env)),
            r is Err ==> final(env).store == old(env).store && !n145_bytes_wf(old(env).store@),
            n145_bytes_wf(old(env).store@) ==> ({
                let sv = old(env).store@;
                let a = account_id@;
                let rec = spec_storage_balance(sv, a);
                let t0 = (match rec {
                    Some(x) => x.0,
                    None => 0,
                });
                let av0 = (match rec {
                    Some(x) => x.1,
                    None => 0,
                });
                let min = spec_bounds(sv).0;
                let max = spec_bounds(sv).1;
                &&& (t0 + amount > u128::MAX || av0 + amount > u128::MAX ==> (
                r matches Ok(e) && e == Err::<StorageBalance, StorageDepositError>(
                    StorageDepositError::BalanceOverflow,
                ) && final(env).store@ == sv))
                &&& (t0 + amount <= u128::MAX && av0 + amount <= u128::MAX && t0 + amount < min
                    ==> (
                r matches Ok(e) && e == Err::<StorageBalance, StorageDepositError>(
                    StorageDepositError::MinimumBalanceUnderrun,
                ) && final(env).store@ == sv))
                &&& (t0 + amount <= u128::MAX && av0 + amount <= u128::MAX && t0 + amount >= min
                    && (max matches Some(m) && t0 + amount > m) ==> (
                r matches Ok(e) && e == Err::<StorageBalance, StorageDepositError>(
                    StorageDepositError::MaximumBalanceOverrun,
                ) && final(env).store@ == sv))
                &&& (t0 + amount <= u128::MAX && av0 + amount <= u128::MAX && t0 + amount >= min
                    && (max matches Some(m) ==> t0 + amount <= m) ==> ({
                    &&& r matches Ok(inner) && inner matches Ok(b) && b.total as nat == t0 + amount
                        && b.available as nat == av0 + amount
                    &&& record_update_ok(
                        *old(env),
                        *final(env),
                        a,
                        (t0 + amount) as nat,
                        (av0 + amount) as nat,
                    )
                }))
            }),
    {
        let bounds = match Self::get_storage_balance_bounds(env) {
            Ok(b) => b,
            Err(e) => {
                return Err(e);
            },
        };
        let rec = match Self::get_storage_balance(env, account_id) {
            Ok(r0) => r0,
            Err(e) => {
                return Err(e);
            },
        };
        let (t0, av0) = match &rec {
            Some(b) => (b.total, b.available),
            None => (0u128, 0u128),
        };
        proof {
            if n145_bytes_wf(env.store@) {
                match rec {
                    Some(b) => {
                        assert(rec.deep_view() == Some(b.deep_view()));
                    },
                    None => {},
                }
            }
        }
        let t1 = match t0.checked_add(amount) {
            Some(v) => v,
            None => {
                return Ok(Err(StorageDepositError::BalanceOverflow));
            },
        };
        let av1 = match av0.checked_add(amount) {
            Some(v) => v,
            None => {
                return Ok(Err(StorageDepositError::BalanceOverflow));
            },
        };
        if t1 < bounds.min {
            return Ok(Err(StorageDepositError::MinimumBalanceUnderrun));
        }
        match bounds.max {
            Some(m) => {
                if t1 > m {
                    return Ok(Err(StorageDepositError::MaximumBalanceOverrun));
                }
            },
            None => {},
        }
        let balance = StorageBalance { total: t1, available: av1 };
        Self::write_record(env, account_id, &balance);
        Ok(Ok(balance))
    }

    /// Pays out `amount` from the account's available balance: both counters
    /// shrink, and the resulting total must stay above the minimum.
    pub fn withdraw_from_storage_account(env: &mut Env, account_id: &AccountId, amount: u128) -> (r:
        Result<Result<StorageBalance, StorageWithdrawError>, HostAbort>)
        ensures
            n145_store_only(*old(env), *final(env)),
            r is Err ==> final(env).store == old(env).store && !n145_bytes_wf(old(env).store@),
            n145_bytes_wf(old(env).store@) && storage_invariant(old(env).store@) ==> ({
                let sv = old(env).store@;
                let a = account_id@;
                let rec = spec_storage_balance(sv, a);
                let min = spec_bounds(sv).0;
                &&& (rec is None ==> (
                r matches Ok(e) && e == Err::<StorageBalance, StorageWithdrawError>(
                    StorageWithdrawError::AccountNotRegistered,
                ) && final(env).store@ == sv))
                &&& (rec is Some ==> ({
                    let x = rec->Some_0;
                    &&& (amount > x.1 ==> (
                    r matches Ok(e) && e == Err::<StorageBalance, StorageWithdrawError>(
                        StorageWithdrawError::ExcessiveWithdrawal,
                    ) && final(env).store@ == sv))
                    &&& (amount <= x.1 && x.0 - amount < min ==> (
                    r matches Ok(e) && e == Err::<StorageBalance, StorageWithdrawError>(
                        StorageWithdrawError::MinimumBalanceUnderrun,
                    ) && final(env).store@ == sv))
                    &&& (amount <= x.1 && x.0 - amount >= min ==> ({
                        &&& r matches Ok(inner) && inner matches Ok(b) && b.total as nat == x.0
                            - amount && b.available as nat == x.1 - amount
                        &&& record_update_ok(
                            *old(env),
                            *final(env),
                            a,
                            (x.0 - amount) as nat,
                            (x.1 - amount) as nat,
                        )
                        &&& storage_invariant(final(env).store@)
                    }))
                }))
            }),
    {
        let bounds = match Self::get_storage_balance_bounds(env) {
            Ok(b) => b,
            Err(e) => {
                return Err(e);
            },
        };
        let rec = match Self::get_storage_balance(env, account_id) {
            Ok(r0) => r0,
            Err(e) => {
                return Err(e);
            },
        };
        proof {
            if n145_bytes_wf(env.store@) {
                match rec {
                    Some(b) => {
                        assert(rec.deep_view() == Some(b.deep_view()));
                    },
                    None => {},
                }
            }
        }
        let current = match rec {
            Some(b) => b,
            None => {
                return Ok(Err(StorageWithdrawError::AccountNotRegistered));
            },
        };
        let av1 = match current.available.checked_sub(amount) {
            Some(v) => v,
            None => {
                return Ok(Err(StorageWithdrawError::ExcessiveWithdrawal));
            },
        };
        let t1 = match current.total.checked_sub(amount) {
            Some(v) => v,
            None => {
                proof {
                    use_type_invariant(account_id);
                    let sv = old(env).store@;
                    if n145_bytes_wf(sv) && storage_invariant(sv) {
                        assert(match spec_storage_balance(sv, account_id@) {
                            Some(x) => x.1 <= x.0,
                            None => true,
                        });
                    }
                }
                return Ok(Err(StorageWithdrawError::ExcessiveWithdrawal));
            },
        };
        if t1 < bounds.min {
            return Ok(Err(StorageWithdrawError::MinimumBalanceUnderrun));
        }
        let balance = StorageBalance { total: t1, available: av1 };
        Self::write_record(env, account_id, &balance);
        Ok(Ok(balance))
    }

    /// Pledges `amount` of the account's available balance to storage.
    pub fn lock_storage(env: &mut Env, account_id: &AccountId, amount: u128) -> (r: Result<
        Result<StorageBalance, StorageLockError>,
        HostAbort,
    >)
        ensures
            n145_store_only(*old(env), *final(env)),
            r is Err ==> final(env).store == old(env).store && !n145_bytes_wf(old(env).store@),
            n145_bytes_wf(old(env).store@) ==> ({
                let sv = old(env).store@;
                let a = account_id@;
                let rec = spec_storage_balance(sv, a);
                &&& (rec is None ==> (
                r matches Ok(e) && e == Err::<StorageBalance, StorageLockError>(
                    StorageLockError::AccountNotRegistered,
                ) && final(env).store@ == sv))
                &&& (rec is Some ==> ({
                    let x = rec->Some_0;
                    &&& (amount > x.1 ==> (
                    r matches Ok(e) && e == Err::<StorageBalance, StorageLockError>(
                        StorageLockError::ExcessiveLock,
                    ) && final(env).store@ == sv))
                    &&& (amount <= x.1 ==> ({
                        &&& r matches Ok(inner) && inner matches Ok(b) && b.total as nat == x.0
                            && b.available as nat == x.1 - amount
                        &&& record_update_ok(*old(env), *final(env), a, x.0, (x.1 - amount) as nat)
                    }))
                }))
            }),
    {
        let rec = match Self::get_storage_balance(env, account_id) {
            Ok(r0) => r0,
            Err(e) => {
                return Err(e);
            },
        };
        proof {
            if n145_bytes_wf(env.store@) {
                match rec {
                    Some(b) => {
                        assert(rec.deep_view() == Some(b.deep_view()));
                    },
                    None => {},
                }
            }
        }
        let current = match rec {
            Some(b) => b,
            None => {
                return Ok(Err(StorageLockError::AccountNotRegistered));
            },
        };
        let av1 = match current.available.checked_sub(amount) {
            Some(v) => v,
            None => {
                return Ok(Err(StorageLockError::ExcessiveLock));
            },
        };
        let balance = StorageBalance { total: current.total, available: av1 };
        Self::write_record(env, account_id, &balance);
        Ok(Ok(balance))
    }

    /// Releases `amount` of pledged storage back to the available balance.
    pub fn unlock_storage(env: &mut Env, account_id: &AccountId, amount: u128) -> (r: Result<
        Result<StorageBalance, StorageUnlockError>,
        HostAbort,
    >)
        ensures
            n145_store_only(*old(env), *final(env)),
            r is Err ==> final(env).store == old(env).store && !n145_bytes_wf(old(env).store@),
            n145_bytes_wf(old(env).store@) ==> ({
                let sv = old(env).store@;
                let a = account_id@;
                let rec = spec_storage_balance(sv, a);
                &&& (rec is None ==> (
                r matches Ok(e) && e == Err::<StorageBalance, StorageUnlockError>(
                    StorageUnlockError::AccountNotRegistered,
                ) && final(env).store@ == sv))
                &&& (rec is Some ==> ({
                    let x = rec->Some_0;
                    &&& (x.1 + amount > x.0 ==> (
                    r matches Ok(e) && e == Err::<StorageBalance, StorageUnlockError>(
                        StorageUnlockError::ExcessiveUnlock,
                    ) && final(env).store@ == sv))
                    &&& (x.1 + amount <= x.0 ==> ({
                        &&& r matches Ok(inner) && inner matches Ok(b) && b.total as nat == x.0
                            && b.available as nat == x.1 + amount
                        &&& record_update_ok(*old(env), *final(env), a, x.0, (x.1 + amount) as nat)
                    }))
                }))
            }),
    {
        let rec = match Self::get_storage_balance(env, account_id) {
            Ok(r0) => r0,
            Err(e) => {
                return Err(e);
            },
        };
        proof {
            if n145_bytes_wf(env.store@) {
                match rec {
                    Some(b) => {
                        assert(rec.deep_view() == Some(b.deep_view()));
                    },
                    None => {},
                }
            }
        }
        let current = match rec {
            Some(b) => b,
            None => {
                return Ok(Err(StorageUnlockError::AccountNotRegistered));
            },
        };
        let av1 = match current.available.checked_add(amount) {
            Some(v) => if v <= current.total {
                v
            } else {
                return Ok(Err(StorageUnlockError::ExcessiveUnlock));
            },
            None => {
                proof {
                    if n145_bytes_wf(old(env).store@) {
                        lemma_le_value_bound(
                            lookup(old(env).store@, n145_account_key(account_id@))->Some_0.subrange(
                                0,
                                16,
                            ),
                        );
                        lemma_pow256_16();
                    }
                }
                return Ok(Err(StorageUnlockError::ExcessiveUnlock));
            },
        };
        let balance = StorageBalance { total: current.total, available: av1 };
        Self::write_record(env, account_id, &balance);
        Ok(Ok(balance))
    }

    /// Releases the whole storage record, when nothing is locked; hands back
    /// the deposited total for refund.
    pub fn unregister_storage_account(env: &mut Env, account_id: &AccountId) -> (r: Result<
        Result<u128, StorageUnregisterError>,
        HostAbort,
    >)
        ensures
            n145_store_only(*old(env), *final(env)),
            r is Err ==> final(env).store == old(env).store && !n145_bytes_wf(old(env).store@),
            n145_bytes_wf(old(env).store@) ==> ({
                let sv = old(env).store@;
                let a = account_id@;
                let rec = spec_storage_balance(sv, a);
                &&& (rec is None ==> (
                r matches Ok(e) && e == Err::<u128, StorageUnregisterError>(
                    StorageUnregisterError::AccountNotRegistered,
                ) && final(env).store@ == sv))
                &&& (rec is Some ==> ({
                    let x = rec->Some_0;
                    &&& (x.1 != x.0 ==> (
                    r matches Ok(e) && e == Err::<u128, StorageUnregisterError>(
                        StorageUnregisterError::UnregisterWithLockedBalance,
                    ) && final(env).store@ == sv))
                    &&& (x.1 == x.0 ==> ({
                        &&& r matches Ok(inner) && inner matches Ok(refund) && refund as nat
                            == x.0
                        &&& final(env).store@ == spec_remove(sv, n145_account_key(a))
                        &&& spec_storage_balance(final(env).store@, a) is None
                        &&& forall|b: Seq<char>|
                            account_view_wf(b) && b != a ==> #[trigger] spec_storage_balance(
                                final(env).store@,
                                b,
                            ) == spec_storage_balance(sv, b)
                        &&& spec_bounds(final(env).store@) == spec_bounds(sv)
                        &&& n145_bytes_wf(final(env).store@)
                        &&& (storage_invariant(sv) ==> storage_invariant(final(env).store@))
                    }))
                }))
            }),
    {
        let rec = match Self::get_storage_balance(env, account_id) {
            Ok(r0) => r0,
            Err(e) => {
                return Err(e);
            },
        };
        proof {
            if n145_bytes_wf(env.store@) {
                match rec {
                    Some(b) => {
                        assert(rec.deep_view() == Some(b.deep_view()));
                    },
                    None => {},
                }
            }
        }
        let current = match rec {
            Some(b) => b,
            None => {
                return Ok(Err(StorageUnregisterError::AccountNotRegistered));
            },
        };
        if current.available != current.total {
            return Ok(Err(StorageUnregisterError::UnregisterWithLockedBalance));
        }
        proof {
            use_type_invariant(account_id);
            use_type_invariant(&env.store);
            if n145_bytes_wf(env.store@) {
                lemma_record_remove_frame(env.store@, account_id@);
            }
            crate::store::lemma_remove(env.store@, n145_account_key(account_id@));
        }
        let slot = Nep145ControllerInternal::slot_account(account_id);
        slot.remove(&mut env.store);
        Ok(Ok(current.total))
    }
}

/// What the inner part of a forced unregistration does: it deletes the
/// account's record and reports the deposited total for refund.
pub open spec fn force_unregister_step(
    pre: Env,
    post: Env,
    a: Seq<char>,
    r: Result<u128, HostAbort>,
) -> bool {
    &&& n145_store_only(pre, post)
    &&& (r matches Ok(refund) ==> {
        &&& post.store@ == spec_remove(pre.store@, n145_account_key(a))
        &&& (n145_bytes_wf(pre.store@) ==> {
            &&& (match spec_storage_balance(pre.store@, a) {
                Some(x) => refund as nat == x.0,
                None => refund == 0,
            })
            &&& n145_bytes_wf(post.store@)
            &&& spec_bounds(post.store@) == spec_bounds(pre.store@)
            &&& spec_storage_balance(post.store@, a) is None
            &&& forall|b: Seq<char>|
                account_view_wf(b) && b != a ==> #[trigger] spec_storage_balance(post.store@, b)
                    == spec_storage_balance(pre.store@, b)
            &&& (storage_invariant(pre.store@) ==> storage_invariant(post.store@))
        })
    })
    &&& (r is Err ==> post == pre && !n145_bytes_wf(pre.store@))
}

/// The forced unregistration without its hook: reads the record, deletes it,
/// and hands back the deposited total.
fn apply_force_unregister(env: &mut Env, account_id: &AccountId) -> (r: Result<u128, HostAbort>)
    ensures
        force_unregister_step(*old(env), *final(env), account_id@, r),
{
    let rec = match Nep145Controller::get_storage_balance(env, account_id) {
        Ok(r0) => r0,
        Err(e) => {
            proof {
                let sv = env.store@;
                if n145_bytes_wf(sv) {
                    assert(false);
                }
            }
            return Err(e);
        },
    };
    proof {
        use_type_invariant(account_id);
        use_type_invariant(&env.store);
        if n145_bytes_wf(env.store@) {
            match rec {
                Some(b) => {
                    assert(rec.deep_view() == Some(b.deep_view()));
                },
                None => {},
            }
            lemma_record_remove_frame(env.store@, account_id@);
        }
        crate::store::lemma_remove(env.store@, n145_account_key(account_id@));
    }
    let slot = Nep145ControllerInternal::slot_account(account_id);
    slot.remove(&mut env.store);
    match rec {
        Some(b) => Ok(b.total),
        None => Ok(0),
    }
}

impl Nep145Controller {
    /// Releases the whole storage record regardless of locks, wrapped in the
    /// force-unregister hook `H`; hands back the deposited total for refund.
    pub fn force_unregister_storage_account<H: crate::hook::Hook<Env, Nep145ForceUnregister>>(
        env: &mut Env,
        account_id: &AccountId,
    ) -> (r: Result<Result<u128, StorageForceUnregisterError>, HostAbort>)
        ensures
            n145_bytes_wf(old(env).store@) && spec_storage_balance(
                old(env).store@,
                account_id@,
            ) is None ==> r == Ok::<Result<u128, StorageForceUnregisterError>, HostAbort>(
                Err(StorageForceUnregisterError::AccountNotRegistered),
            ) && *final(env) == *old(env),
            r is Ok && r->Ok_0 is Ok ==> exists|pre: Env, post: Env, refund: u128|
                r == Ok::<Result<u128, StorageForceUnregisterError>, HostAbort>(Ok(refund))
                    && #[trigger] force_unregister_step(pre, post, account_id@, Ok(refund)),
    {
        let rec = match Self::get_storage_balance(env, account_id) {
            Ok(r0) => r0,
            Err(e) => {
                return Err(e);
            },
        };
        let balance = match rec {
            Some(b) => b,
            None => {
                return Ok(Err(StorageForceUnregisterError::AccountNotRegistered));
            },
        };
        let args = Nep145ForceUnregister { account_id: account_id.clone(), balance };
        let inner = |c: &mut Env| -> (rr: Result<u128, HostAbort>)
            ensures
                force_unregister_step(*old(c), *final(c), account_id@, rr),
            {
                apply_force_unregister(c, account_id)
            };
        let res = H::hook(env, &args, inner);
        match res {
            Ok(refund) => {
                proof {
                    let x = choose|x: &mut Env| call_ensures(inner, (x,), res);
                    assert(force_unregister_step(
                        mut_ref_current(x),
                        mut_ref_future(x),
                        account_id@,
                        Ok(refund),
                    ));
                    assert(exists|pre: Env, post: Env|
                        #[trigger] force_unregister_step(pre, post, account_id@, Ok(refund)));
                }
                Ok(Ok(refund))
            },
            Err(a) => Err(a),
        }
    }
}

/// The chosen amount a `storage_deposit` actually credits: the minimum for a
/// registration-only call, otherwise the attached deposit clamped to the
/// maximum bound.
pub open spec fn spec_deposit_amount(
    min: nat,
    max: Option<nat>,
    attached: nat,
    registration_only: bool,
) -> nat {
    if registration_only {
        min
    } else {
        match max {
            Some(m) => if attached < m {
                attached
            } else {
                m
            },
            None => attached,
        }
    }
}

/// The wire surface of the storage-accounting component.
pub struct Nep145;

impl Nep145 {
    /// Accepts the attached native-token deposit for the named account (the
    /// caller when unnamed), clamps it against the bounds, refunds the excess
    /// by promise, and registers the account if it is new.
    pub fn storage_deposit(
        env: &mut Env,
        account_id: Option<AccountId>,
        registration_only: Option<bool>,
    ) -> (r: Result<StorageBalance, HostAbort>)
        ensures
            n145_bytes_wf(old(env).store@) ==> ({
                let sv = old(env).store@;
                let target = (match account_id {
                    Some(a) => a@,
                    None => old(env).predecessor@,
                });
                let amount = spec_deposit_amount(
                    spec_bounds(sv).0,
                    spec_bounds(sv).1,
                    old(env).attached_deposit as nat,
                    (match registration_only {
                        Some(b) => b,
                        None => false,
                    }),
                );
                let rec = spec_storage_balance(sv, target);
                let t0 = (match rec {
                    Some(x) => x.0,
                    None => 0,
                });
                let av0 = (match rec {
                    Some(x) => x.1,
                    None => 0,
                });
                let min = spec_bounds(sv).0;
                let max = spec_bounds(sv).1;
                let credited = (old(env).attached_deposit as nat >= amount && t0 + amount
                    <= u128::MAX && av0 + amount <= u128::MAX && t0 + amount >= min && (match max {
                    Some(m) => t0 + amount <= m,
                    None => true,
                }));
                &&& (r is Ok <==> credited)
                &&& (r matches Ok(b) ==> {
                    &&& b.total as nat == t0 + amount
                    &&& b.available as nat == av0 + amount
                    &&& record_update_ok(
                        *old(env),
                        *final(env),
                        target,
                        (t0 + amount) as nat,
                        (av0 + amount) as nat,
                    )
                    &&& spec_storage_balance(final(env).store@, target) == Some(
                        (b.total as nat, b.available as nat),
                    )
                    &&& (storage_invariant(sv) ==> storage_invariant(final(env).store@))
                    &&& (old(env).attached_deposit as nat == amount ==> final(env).promises
                        == old(env).promises)
                    &&& (old(env).attached_deposit as nat > amount ==> ({
                        &&& final(env).promises@.len() == old(env).promises@.len() + 1
                        &&& final(env).promises@.last()@.len() == 1
                        &&& final(env).promises@.last()@[0].receiver@ == old(env).predecessor@
                        &&& final(env).promises@.last()@[0].action matches crate::env::PromiseAction::Transfer {
                            amount: refund,
                        } && refund as nat == old(env).attached_deposit as nat - amount
                    }))
                })
            }),
    {
        let bounds = match Nep145Controller::get_storage_balance_bounds(env) {
            Ok(b) => b,
            Err(e) => {
                return Err(e);
            },
        };
        let attached = env.attached_deposit;
        let reg_only = match registration_only {
            Some(b) => b,
            None => false,
        };
        let amount: u128 = if reg_only {
            bounds.min
        } else {
            match bounds.max {
                Some(m) => if attached < m {
                    attached
                } else {
                    m
                },
                None => attached,
            }
        };
        let refund = match attached.checked_sub(amount) {
            Some(v) => v,
            None => {
                return Err(
                    HostAbort {
                        message: <String as vstd::string::StringExecFns>::from_str(
                            "Attached deposit is less than required",
                        ),
                    },
                );
            },
        };
        let predecessor = env.predecessor.clone();
        let target = match &account_id {
            Some(a) => a.clone(),
            None => predecessor.clone(),
        };
        let balance = match Nep145Controller::deposit_to_storage_account(env, &target, amount) {
            Ok(inner) => match inner {
                Ok(b) => b,
                Err(_) => {
                    return Err(
                        HostAbort {
                            message: <String as vstd::string::StringExecFns>::from_str(
                                "Storage deposit error",
                            ),
                        },
                    );
                },
            },
            Err(e) => {
                return Err(e);
            },
        };
        if refund > 0 {
            let mut chain: Vec<crate::env::PromiseLink> = Vec::new();
            chain.push(
                crate::env::PromiseLink {
                    receiver: predecessor,
                    action: crate::env::PromiseAction::Transfer { amount: refund },
                },
            );
            env.schedule(chain);
        }
        Ok(balance)
    }

    /// Pays up to the available balance back to the caller by promise;
    /// demands one attached yocto.
    pub fn storage_withdraw(env: &mut Env, amount: Option<u128>) -> (r: Result<
        StorageBalance,
        HostAbort,
    >)
        ensures
            old(env).attached_deposit != 1 ==> r is Err && *final(env) == *old(env),
            old(env).attached_deposit == 1 && n145_bytes_wf(old(env).store@) && storage_invariant(
                old(env).store@,
            ) ==> ({
                let sv = old(env).store@;
                let caller = old(env).predecessor@;
                let rec = spec_storage_balance(sv, caller);
                let min = spec_bounds(sv).0;
                &&& (rec is None ==> r is Err && final(env).store@ == sv && final(env).promises
                    == old(env).promises)
                &&& (rec is Some ==> ({
                    let x = rec->Some_0;
                    let amt = (match amount {
                        Some(a) => a as nat,
                        None => x.1,
                    });
                    &&& (amt == 0 ==> (r matches Ok(b) && b@ == x && *final(env) == *old(env)))
                    &&& (amt > 0 && (amt > x.1 || x.0 - amt < min) ==> r is Err
                        && final(env).store@ == sv && final(env).promises == old(env).promises)
                    &&& (amt > 0 && amt <= x.1 && x.0 - amt >= min ==> (match r {
                        Ok(b) => {
                            &&& b.total as nat == x.0 - amt
                            &&& b.available as nat == x.1 - amt
                            &&& record_update_ok(
                                *old(env),
                                *final(env),
                                caller,
                                (x.0 - amt) as nat,
                                (x.1 - amt) as nat,
                            )
                            &&& storage_invariant(final(env).store@)
                            &&& final(env).promises@.len() == old(env).promises@.len() + 1
                            &&& final(env).promises@.last()@.len() == 1
                            &&& final(env).promises@.last()@[0].receiver@ == caller
                            &&& final(env).promises@.last()@[0].action matches crate::env::PromiseAction::Transfer {
                                amount: paid,
                            } && paid as nat == amt
                        },
                        Err(_) => false,
                    }))
                }))
            }),
    {
        if env.attached_deposit != 1 {
            return Err(
                HostAbort {
                    message: <String as vstd::string::StringExecFns>::from_str(
                        "Requires attached deposit of exactly 1 yoctoNEAR",
                    ),
                },
            );
        }
        let predecessor = env.predecessor.clone();
        let rec = match Nep145Controller::get_storage_balance(env, &predecessor) {
            Ok(r0) => r0,
            Err(e) => {
                return Err(e);
            },
        };
        let balance = match rec {
            Some(b) => b,
            None => {
                return Err(
                    HostAbort {
                        message: <String as vstd::string::StringExecFns>::from_str(
                            "Storage account not registered",
                        ),
                    },
                );
            },
        };
        let amount = match amount {
            Some(a) => a,
            None => balance.available,
        };
        if amount == 0 {
            return Ok(balance);
        }
        let new_balance = match Nep145Controller::withdraw_from_storage_account(
            env,
            &predecessor,
            amount,
        ) {
            Ok(inner) => match inner {
                Ok(b) => b,
                Err(_) => {
                    return Err(
                        HostAbort {
                            message: <String as vstd::string::StringExecFns>::from_str(
                                "Storage withdraw error",
                            ),
                        },
                    );
                },
            },
            Err(e) => {
                return Err(e);
            },
        };
        let mut chain: Vec<crate::env::PromiseLink> = Vec::new();
        chain.push(
            crate::env::PromiseLink {
                receiver: predecessor,
                action: crate::env::PromiseAction::Transfer { amount },
            },
        );
        env.schedule(chain);
        Ok(new_balance)
    }

    /// Releases the caller's storage: the unforced path fails while part of
    /// the deposit is locked; the forced path runs the force-unregister hook
    /// `H`. Returns false when the caller was never registered. Demands one
    /// attached yocto.
    pub fn storage_unregister<H: crate::hook::Hook<Env, Nep145ForceUnregister>>(
        env: &mut Env,
        force: Option<bool>,
    ) -> (r: Result<bool, HostAbort>)
        ensures
            old(env).attached_deposit != 1 ==> r is Err && *final(env) == *old(env),
            ({
                let forced = (match force {
                    Some(b) => b,
                    None => false,
                });
                let sv = old(env).store@;
                let caller = old(env).predecessor@;
                &&& (old(env).attached_deposit == 1 && n145_bytes_wf(sv) && forced
                    && spec_storage_balance(sv, caller) is None ==> r == Ok::<bool, HostAbort>(
                    false,
                ) && final(env).store@ == sv && final(env).promises == old(env).promises)
                &&& (old(env).attached_deposit == 1 && n145_bytes_wf(sv) && !forced ==> ({
                    let rec = spec_storage_balance(sv, caller);
                    &&& (rec is None ==> r == Ok::<bool, HostAbort>(false) && final(env).store@
                        == sv)
                    &&& (rec is Some ==> ({
                        let x = rec->Some_0;
                        &&& (x.1 != x.0 ==> r is Err && final(env).store@ == sv)
                        &&& (x.1 == x.0 ==> ({
                            &&& r == Ok::<bool, HostAbort>(true)
                            &&& final(env).store@ == spec_remove(sv, n145_account_key(caller))
                            &&& spec_storage_balance(final(env).store@, caller) is None
                            &&& final(env).promises@.len() == old(env).promises@.len() + 1
                            &&& final(env).promises@.last()@.len() == 1
                            &&& final(env).promises@.last()@[0].receiver@ == caller
                            &&& final(env).promises@.last()@[0].action matches crate::env::PromiseAction::Transfer {
                                amount: refund,
                            } && refund as nat == x.0
                        }))
                    }))
                }))
            }),
    {
        if env.attached_deposit != 1 {
            return Err(
                HostAbort {
                    message: <String as vstd::string::StringExecFns>::from_str(
                        "Requires attached deposit of exactly 1 yoctoNEAR",
                    ),
                },
            );
        }
        let predecessor = env.predecessor.clone();
        let forced = match force {
            Some(b) => b,
            None => false,
        };
        let refund: u128;
        if forced {
            refund = match Nep145Controller::force_unregister_storage_account::<H>(
                env,
                &predecessor,
            ) {
                Ok(inner) => match inner {
                    Ok(v) => v,
                    Err(StorageForceUnregisterError::AccountNotRegistered) => {
                        return Ok(false);
                    },
                },
                Err(e) => {
                    return Err(e);
                },
            };
        } else {
            refund = match Nep145Controller::unregister_storage_account(env, &predecessor) {
                Ok(inner) => match inner {
                    Ok(v) => v,
                    Err(StorageUnregisterError::AccountNotRegistered) => {
                        return Ok(false);
                    },
                    Err(StorageUnregisterError::UnregisterWithLockedBalance) => {
                        return Err(
                            HostAbort {
                                message: <String as vstd::string::StringExecFns>::from_str(
                                    "Attempt to unregister from storage with locked balance",
                                ),
                            },
                        );
                    },
                },
                Err(e) => {
                    return Err(e);
                },
            };
        }
        let mut chain: Vec<crate::env::PromiseLink> = Vec::new();
        chain.push(
            crate::env::PromiseLink {
                receiver: predecessor,
                action: crate::env::PromiseAction::Transfer { amount: refund },
            },
        );
        env.schedule(chain);
        Ok(true)
    }

    /// The storage record of `account_id`, when registered.
    pub fn storage_balance_of(env: &Env, account_id: &AccountId) -> (r: Result<
        Option<StorageBalance>,
        HostAbort,
    >)
        ensures
            n145_bytes_wf(env.store@) ==> (r matches Ok(rec) && rec.deep_view()
                == spec_storage_balance(env.store@, account_id@)),
    {
        Nep145Controller::get_storage_balance(env, account_id)
    }

    /// The registration bounds.
    pub fn storage_balance_bounds(env: &Env) -> (r: Result<StorageBalanceBounds, HostAbort>)
        ensures
            n145_bytes_wf(env.store@) ==> (r matches Ok(b) && spec_bounds(env.store@) == (
                b.min as nat,
                match b.max {
                    Some(m) => Some(m as nat),
                    None => None,
                },
            )),
    {
        Nep145Controller::get_storage_balance_bounds(env)
    }
}
} // verus!
