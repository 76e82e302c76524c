//! Fungible-token controller: balances and total supply in slot storage,
//! with checked arithmetic, hook-wrapped mint / transfer / burn, byte-exact
//! events, and the transfer-call flow.
use vstd::prelude::*;

use crate::account::account_bytes;
use crate::account::lemma_account_bytes_injective;
use crate::account::AccountId;
use crate::bytes::le_bytes;
use crate::bytes::le_value;
use crate::bytes::lemma_le_round_trip;
use crate::bytes::lemma_le_value_bound;
use crate::bytes::lemma_pow256_16;
use crate::bytes::pow256;
use crate::bytes::u128_from_le_bytes;
use crate::bytes::u128_to_le_bytes;
use crate::env::same_context;
use crate::env::Env;
use crate::hook::HostAbort;
use crate::slot::lemma_path_key_injective;
use crate::slot::lemma_path_key_snoc;
use crate::slot::path_key;
use crate::slot::tag_byte;
use crate::slot::DefaultStorageKey;
use crate::slot::Slot;
use crate::store::contains_key;
use crate::store::lemma_key_index;
use crate::store::lemma_write;
use crate::store::lemma_wsum_push;
use crate::store::lemma_wsum_update;
use crate::store::lookup;
use crate::store::spec_write;
use crate::store::wsum;
use crate::store::Store;
use vstd::utf8::is_ascii_chars;

verus! {

/// Field discriminant of the total-supply slot under the token root.
pub const TOTAL_SUPPLY_TAG: u8 = 0;

/// Field discriminant of per-account balance slots under the token root.
pub const ACCOUNT_TAG: u8 = 1;

/// The key of the total-supply slot.
pub open spec fn ft_total_supply_key() -> Seq<u8> {
    path_key(
        tag_byte(DefaultStorageKey::Nep141),
        seq![(TOTAL_SUPPLY_TAG, Seq::<u8>::empty())],
    )
}

/// The key of the balance slot of account `a`.
pub open spec fn ft_account_key(a: Seq<char>) -> Seq<u8> {
    path_key(tag_byte(DefaultStorageKey::Nep141), seq![(ACCOUNT_TAG, account_bytes(a))])
}

/// An account name the host could hand out.
pub open spec fn account_view_wf(a: Seq<char>) -> bool {
    is_ascii_chars(a) && 0 < a.len() <= 64
}

/// Whether `k` is the balance-slot key of some account.
pub open spec fn is_ft_account_key(k: Seq<u8>) -> bool {
    exists|a: Seq<char>| account_view_wf(a) && k == #[trigger] ft_account_key(a)
}

/// The stored balance of account `a`: the decoded 16-byte value, zero when
/// the slot is empty.
pub open spec fn spec_balance_of(sv: Seq<(Seq<u8>, Seq<u8>)>, a: Seq<char>) -> nat {
    match lookup(sv, ft_account_key(a)) {
        Some(v) => le_value(v),
        None => 0,
    }
}

/// The stored total supply, zero when the slot is empty.
pub open spec fn spec_total_supply(sv: Seq<(Seq<u8>, Seq<u8>)>) -> nat {
    match lookup(sv, ft_total_supply_key()) {
        Some(v) => le_value(v),
        None => 0,
    }
}

/// Shape of the token's stored values: every balance and the supply counter
/// hold exactly sixteen bytes.
pub open spec fn ft_bytes_wf(sv: Seq<(Seq<u8>, Seq<u8>)>) -> bool {
    &&& (match lookup(sv, ft_total_supply_key()) {
        Some(v) => v.len() == 16,
        None => true,
    })
    &&& (forall|a: Seq<char>|
        account_view_wf(a) ==> match #[trigger] lookup(sv, ft_account_key(a)) {
            Some(v) => v.len() == 16,
            None => true,
        })
}

/// The balance an entry contributes to the circulating sum: its decoded
/// value when it is a balance slot, nothing otherwise.
pub open spec fn ft_weight(e: (Seq<u8>, Seq<u8>)) -> int {
    if is_ft_account_key(e.0) {
        le_value(e.1) as int
    } else {
        0
    }
}

/// The sum of all stored balances. Balance-slot keys are injective in the
/// account, so each account's balance appears exactly once: this is the sum
/// of `balance_of` over every account.
pub open spec fn ft_balance_sum(sv: Seq<(Seq<u8>, Seq<u8>)>) -> int {
    wsum(sv, |e: (Seq<u8>, Seq<u8>)| ft_weight(e))
}

/// The supply invariant: the sum of all account balances equals the stored
/// total supply.
pub open spec fn ft_supply_invariant(sv: Seq<(Seq<u8>, Seq<u8>)>) -> bool {
    ft_balance_sum(sv) == spec_total_supply(sv)
}

/// Distinct accounts own distinct balance slots, and neither collides with
/// the total-supply slot.
pub proof fn lemma_ft_keys_distinct(a: Seq<char>, b: Seq<char>)
    requires
        account_view_wf(a),
        account_view_wf(b),
    ensures
        a != b ==> ft_account_key(a) != ft_account_key(b),
        ft_account_key(a) != ft_total_supply_key(),
{
    let pa = seq![(ACCOUNT_TAG, account_bytes(a))];
    let pb = seq![(ACCOUNT_TAG, account_bytes(b))];
    let pt = seq![(TOTAL_SUPPLY_TAG, Seq::<u8>::empty())];
    assert(account_bytes(a).len() == a.len());
    assert(account_bytes(b).len() == b.len());
    if a != b {
        lemma_account_bytes_injective(a, b);
        assert(pa != pb) by {
            assert(pa[0].1 != pb[0].1);
        };
        lemma_path_key_injective(
            tag_byte(DefaultStorageKey::Nep141),
            pa,
            tag_byte(DefaultStorageKey::Nep141),
            pb,
        );
    }
    assert(pa != pt) by {
        assert(pa[0].0 != pt[0].0);
    };
    lemma_path_key_injective(
        tag_byte(DefaultStorageKey::Nep141),
        pa,
        tag_byte(DefaultStorageKey::Nep141),
        pt,
    );
}

/// The total-supply slot is nobody's balance slot.
pub proof fn lemma_total_supply_key_not_account()
    ensures
        !is_ft_account_key(ft_total_supply_key()),
{
    if is_ft_account_key(ft_total_supply_key()) {
        let a = choose|a: Seq<char>|
            account_view_wf(a) && ft_total_supply_key() == #[trigger] ft_account_key(a);
        lemma_ft_keys_distinct(a, a);
    }
}

/// A sixteen-byte value decodes below `2^128`.
proof fn lemma_value_fits(v: Seq<u8>)
    requires
        v.len() == 16,
    ensures
        le_value(v) <= u128::MAX,
{
    lemma_le_value_bound(v);
    lemma_pow256_16();
}

/// Balance overflow: the account's balance cannot take the amount.
#[derive(Debug)]
pub struct BalanceOverflowError {
    pub account_id: AccountId,
    pub balance: u128,
    pub amount: u128,
}

/// Total-supply overflow: the circulating supply cannot take the amount.
#[derive(Debug)]
pub struct TotalSupplyOverflowError {
    pub total_supply: u128,
    pub amount: u128,
}

/// Balance underflow: the account holds less than the amount.
#[derive(Debug)]
pub struct BalanceUnderflowError {
    pub account_id: AccountId,
    pub balance: u128,
    pub amount: u128,
}

/// Total-supply underflow: the supply counter holds less than the amount.
#[derive(Debug)]
pub struct TotalSupplyUnderflowError {
    pub total_supply: u128,
    pub amount: u128,
}

/// Why a deposit was refused.
#[derive(Debug)]
pub enum DepositError {
    BalanceOverflow(BalanceOverflowError),
    TotalSupplyOverflow(TotalSupplyOverflowError),
}

/// Why a withdrawal was refused.
#[derive(Debug)]
pub enum WithdrawError {
    BalanceUnderflow(BalanceUnderflowError),
    TotalSupplyUnderflow(TotalSupplyUnderflowError),
}

/// Why a transfer was refused.
#[derive(Debug)]
pub enum TransferError {
    BalanceOverflow(BalanceOverflowError),
    BalanceUnderflow(BalanceUnderflowError),
}

/// Slot layout of the fungible-token component.
pub struct Nep141ControllerInternal;

impl Nep141ControllerInternal {
    /// Root storage slot.
    pub fn root() -> (s: Slot)
        ensures
            s@ =~= path_key(tag_byte(DefaultStorageKey::Nep141), Seq::empty()),
    {
        Slot::root(DefaultStorageKey::Nep141)
    }

    /// Slot holding the balance of `account_id`.
    pub fn slot_account(account_id: &AccountId) -> (s: Slot)
        ensures
            s@ == ft_account_key(account_id@),
    {
        proof {
            use_type_invariant(account_id);
        }
        let bytes = account_id.key_bytes();
        let s = Self::root().field(ACCOUNT_TAG, bytes.as_slice());
        proof {
            lemma_path_key_snoc(
                tag_byte(DefaultStorageKey::Nep141),
                Seq::empty(),
                ACCOUNT_TAG,
                account_bytes(account_id@),
            );
            assert(Seq::empty().push((ACCOUNT_TAG, account_bytes(account_id@))) =~= seq![
                (ACCOUNT_TAG, account_bytes(account_id@)),
            ]);
            assert(s@ =~= ft_account_key(account_id@));
        }
        s
    }

    /// Slot holding the total supply.
    pub fn slot_total_supply() -> (s: Slot)
        ensures
            s@ == ft_total_supply_key(),
    {
        let empty: Vec<u8> = Vec::new();
        let s = Self::root().field(TOTAL_SUPPLY_TAG, empty.as_slice());
        proof {
            lemma_path_key_snoc(
                tag_byte(DefaultStorageKey::Nep141),
                Seq::empty(),
                TOTAL_SUPPLY_TAG,
                Seq::<u8>::empty(),
            );
            assert(Seq::empty().push((TOTAL_SUPPLY_TAG, Seq::<u8>::empty())) =~= seq![
                (TOTAL_SUPPLY_TAG, Seq::<u8>::empty()),
            ]);
            assert(s@ =~= ft_total_supply_key());
        }
        s
    }
}

/// Reads the amount stored at `slot`: zero when absent, an abort when the
/// stored bytes do not have the sixteen-byte shape.
fn read_amount(store: &Store, slot: &Slot) -> (r: Result<u128, HostAbort>)
    ensures
        match lookup(store@, slot@) {
            Some(v) => if v.len() == 16 {
                r matches Ok(n) && n as nat == le_value(v)
            } else {
                r is Err
            },
            None => r == Ok::<u128, HostAbort>(0u128),
        },
        r matches Err(a) ==> a.message@ == ("stored amount has an unexpected shape")@,
{
    let got = slot.read(store);
    proof {
        match &got {
            Some(b) => {
                assert(got.deep_view() == Some(b.deep_view()));
                assert(lookup(store@, slot@) == Some(b@));
            },
            None => {
                assert(got.deep_view() == Option::<Seq<u8>>::None);
            },
        }
    }
    match got {
        Some(bytes) => {
            if bytes.len() == 16 {
                let n = u128_from_le_bytes(bytes.as_slice());
                Ok(n)
            } else {
                Err(
                    HostAbort {
                        message: <String as vstd::string::StringExecFns>::from_str(
                            "stored amount has an unexpected shape",
                        ),
                    },
                )
            }
        },
        None => Ok(0),
    }
}

/// The store after only the balance of `a` was set to `v`.
pub open spec fn spec_write_balance(sv: Seq<(Seq<u8>, Seq<u8>)>, a: Seq<char>, v: nat) -> Seq<
    (Seq<u8>, Seq<u8>),
> {
    spec_write(sv, ft_account_key(a), le_bytes(v, 16))
}

/// The store after only the total supply was set to `v`.
pub open spec fn spec_write_total(sv: Seq<(Seq<u8>, Seq<u8>)>, v: nat) -> Seq<(Seq<u8>, Seq<u8>)> {
    spec_write(sv, ft_total_supply_key(), le_bytes(v, 16))
}

/// How one write of a sixteen-byte balance moves the balance sum.
proof fn lemma_balance_write_sum(sv: Seq<(Seq<u8>, Seq<u8>)>, a: Seq<char>, v: nat)
    requires
        crate::store::entries_wf(sv),
        account_view_wf(a),
        ft_bytes_wf(sv),
        v < pow256(16),
    ensures
        ft_balance_sum(spec_write_balance(sv, a, v)) == ft_balance_sum(sv) - spec_balance_of(
            sv,
            a,
        ) + v,
{
    let k = ft_account_key(a);
    let bytes = le_bytes(v, 16);
    let w = |e: (Seq<u8>, Seq<u8>)| ft_weight(e);
    lemma_le_round_trip(v, 16);
    assert(is_ft_account_key(k));
    assert(w((k, bytes)) == v as int);
    if contains_key(sv, k) {
        lemma_key_index(sv, k);
        let at = crate::store::key_index(sv, k);
        assert(sv[at] == (k, sv[at].1)) by {
            assert(sv[at].0 == k);
        };
        assert(w(sv[at]) == le_value(sv[at].1) as int);
        assert(lookup(sv, k) == Some(sv[at].1));
        assert(spec_balance_of(sv, a) == le_value(sv[at].1));
        lemma_wsum_update(sv, w, at, (k, bytes));
    } else {
        assert(spec_balance_of(sv, a) == 0);
        lemma_wsum_push(sv, w, (k, bytes));
    }
}

/// How one write of the total-supply slot moves the balance sum: not at all.
proof fn lemma_total_write_sum(sv: Seq<(Seq<u8>, Seq<u8>)>, v: nat)
    requires
        crate::store::entries_wf(sv),
        v < pow256(16),
    ensures
        ft_balance_sum(spec_write_total(sv, v)) == ft_balance_sum(sv),
        spec_total_supply(spec_write_total(sv, v)) == v,
{
    let k = ft_total_supply_key();
    let bytes = le_bytes(v, 16);
    let w = |e: (Seq<u8>, Seq<u8>)| ft_weight(e);
    lemma_total_supply_key_not_account();
    assert(w((k, bytes)) == 0);
    if contains_key(sv, k) {
        lemma_key_index(sv, k);
        let at = crate::store::key_index(sv, k);
        assert(sv[at] == (k, sv[at].1)) by {
            assert(sv[at].0 == k);
        };
        assert(w(sv[at]) == 0);
        lemma_wsum_update(sv, w, at, (k, bytes));
    } else {
        lemma_wsum_push(sv, w, (k, bytes));
    }
    lemma_write(sv, k, bytes);
    lemma_le_round_trip(v, 16);
}

/// A balance write leaves every other account, and the supply slot, as they
/// were, and keeps the stored shapes.
proof fn lemma_balance_write_frame(sv: Seq<(Seq<u8>, Seq<u8>)>, a: Seq<char>, v: nat)
    requires
        crate::store::entries_wf(sv),
        account_view_wf(a),
        ft_bytes_wf(sv),
        v < pow256(16),
    ensures
        ft_bytes_wf(spec_write_balance(sv, a, v)),
        spec_balance_of(spec_write_balance(sv, a, v), a) == v,
        forall|b: Seq<char>|
            account_view_wf(b) && b != a ==> #[trigger] spec_balance_of(
                spec_write_balance(sv, a, v),
                b,
            ) == spec_balance_of(sv, b),
        spec_total_supply(spec_write_balance(sv, a, v)) == spec_total_supply(sv),
        crate::store::entries_wf(spec_write_balance(sv, a, v)),
{
    let k = ft_account_key(a);
    let bytes = le_bytes(v, 16);
    lemma_write(sv, k, bytes);
    lemma_le_round_trip(v, 16);
    let out = spec_write_balance(sv, a, v);
    assert forall|b: Seq<char>| account_view_wf(b) && b != a implies #[trigger] spec_balance_of(
        out,
        b,
    ) == spec_balance_of(sv, b) by {
        lemma_ft_keys_distinct(a, b);
        assert(lookup(out, ft_account_key(b)) == lookup(sv, ft_account_key(b)));
    }
    lemma_ft_keys_distinct(a, a);
    assert(lookup(out, ft_total_supply_key()) == lookup(sv, ft_total_supply_key()));
    assert forall|b: Seq<char>| account_view_wf(b) implies match #[trigger] lookup(
        out,
        ft_account_key(b),
    ) {
        Some(w) => w.len() == 16,
        None => true,
    } by {
        if b != a {
            lemma_ft_keys_distinct(a, b);
        }
    }
}

/// A total-supply write leaves every account balance as it was, and keeps
/// the stored shapes.
proof fn lemma_total_write_frame(sv: Seq<(Seq<u8>, Seq<u8>)>, v: nat)
    requires
        crate::store::entries_wf(sv),
        ft_bytes_wf(sv),
        v < pow256(16),
    ensures
        ft_bytes_wf(spec_write_total(sv, v)),
        spec_total_supply(spec_write_total(sv, v)) == v,
        forall|b: Seq<char>|
            account_view_wf(b) ==> #[trigger] spec_balance_of(spec_write_total(sv, v), b)
                == spec_balance_of(sv, b),
        crate::store::entries_wf(spec_write_total(sv, v)),
{
    let k = ft_total_supply_key();
    let bytes = le_bytes(v, 16);
    lemma_write(sv, k, bytes);
    lemma_le_round_trip(v, 16);
    let out = spec_write_total(sv, v);
    assert forall|b: Seq<char>| account_view_wf(b) implies #[trigger] spec_balance_of(out, b)
        == spec_balance_of(sv, b) by {
        lemma_ft_keys_distinct(b, b);
        assert(lookup(out, ft_account_key(b)) == lookup(sv, ft_account_key(b)));
    }
    assert forall|b: Seq<char>| account_view_wf(b) implies match #[trigger] lookup(
        out,
        ft_account_key(b),
    ) {
        Some(w) => w.len() == 16,
        None => true,
    } by {
        lemma_ft_keys_distinct(b, b);
    }
}


/// A step that may touch the store but no other part of the environment.
pub open spec fn store_only_step(pre: Env, post: Env) -> bool {
    post.logs == pre.logs && post.promises == pre.promises && same_context(pre, post)
}

/// Internal token operations: reads, checked arithmetic on balances and
/// supply. No events, no hooks.
pub struct Nep141Controller;

impl Nep141Controller {
    /// The balance of an account; zero when the account has no entry. Aborts
    /// when the stored bytes are malformed.
    pub fn balance_of(env: &Env, account_id: &AccountId) -> (r: Result<u128, HostAbort>)
        ensures
            ft_bytes_wf(env.store@) ==> (r matches Ok(b) && b as nat == spec_balance_of(
                env.store@,
                account_id@,
            )),
            r matches Err(a) ==> a.message@ == ("stored amount has an unexpected shape")@,
    {
        proof {
            use_type_invariant(account_id);
        }
        let slot = Nep141ControllerInternal::slot_account(account_id);
        read_amount(&env.store, &slot)
    }

    /// The total circulating supply; zero before the first mint. Aborts when
    /// the stored bytes are malformed.
    pub fn total_supply(env: &Env) -> (r: Result<u128, HostAbort>)
        ensures
            ft_bytes_wf(env.store@) ==> (r matches Ok(t) && t as nat == spec_total_supply(
                env.store@,
            )),
            r matches Err(a) ==> a.message@ == ("stored amount has an unexpected shape")@,
    {
        let slot = Nep141ControllerInternal::slot_total_supply();
        read_amount(&env.store, &slot)
    }

    /// Adds `amount` to the account's balance and to the total supply, with
    /// checked arithmetic. Zero amounts are a no-op. No event, no hook.
    pub fn deposit_unchecked(env: &mut Env, account_id: &AccountId, amount: u128) -> (r: Result<
        Result<(), DepositError>,
        HostAbort,
    >)
        ensures
            store_only_step(*old(env), *final(env)),
            r is Err ==> final(env).store == old(env).store && !ft_bytes_wf(old(env).store@),
            r matches Err(a) ==> a.message@ == ("stored amount has an unexpected shape")@,
            ft_bytes_wf(old(env).store@) ==> ({
                let sv = old(env).store@;
                let a = account_id@;
                let bal = spec_balance_of(sv, a);
                let ts = spec_total_supply(sv);
                &&& (amount == 0 ==> r == Ok::<Result<(), DepositError>, HostAbort>(Ok(()))
                    && final(env).store@ == sv)
                &&& (amount > 0 && bal + amount > u128::MAX ==> final(env).store@ == sv && (
                r matches Ok(inner) && inner matches Err(e) && e matches DepositError::BalanceOverflow(o)
                    && o.account_id == *account_id && o.balance == bal && o.amount == amount))
                &&& (amount > 0 && bal + amount <= u128::MAX && ts + amount > u128::MAX ==> final(env).store@ == spec_write_balance(sv, a, (bal + amount) as nat) && (
                r matches Ok(inner) && inner matches Err(e)
                    && e matches DepositError::TotalSupplyOverflow(o) && o.total_supply == ts
                    && o.amount == amount))
                &&& (amount > 0 && bal + amount <= u128::MAX && ts + amount <= u128::MAX ==> ({
                    let post = spec_write_total(
                        spec_write_balance(sv, a, (bal + amount) as nat),
                        (ts + amount) as nat,
                    );
                    &&& r == Ok::<Result<(), DepositError>, HostAbort>(Ok(()))
                    &&& final(env).store@ == post
                    &&& spec_balance_of(post, a) == bal + amount
                    &&& spec_total_supply(post) == ts + amount
                    &&& forall|b: Seq<char>|
                        account_view_wf(b) && b != a ==> #[trigger] spec_balance_of(post, b)
                            == spec_balance_of(sv, b)
                    &&& ft_bytes_wf(post)
                    &&& (ft_supply_invariant(sv) ==> ft_supply_invariant(post))
                }))
            }),
    {
        proof {
            use_type_invariant(account_id);
            use_type_invariant(&env.store);
        }
        if amount == 0 {
            return Ok(Ok(()));
        }
        let slot_acct = Nep141ControllerInternal::slot_account(account_id);
        let slot_total = Nep141ControllerInternal::slot_total_supply();
        let bal = match read_amount(&env.store, &slot_acct) {
            Ok(b) => b,
            Err(e) => {
                return Err(e);
            },
        };
        let ts = match read_amount(&env.store, &slot_total) {
            Ok(t) => t,
            Err(e) => {
                return Err(e);
            },
        };
        let ghost sv = env.store@;
        let new_bal = match bal.checked_add(amount) {
            Some(b) => b,
            None => {
                return Ok(
                    Err(
                        DepositError::BalanceOverflow(
                            BalanceOverflowError {
                                account_id: account_id.clone(),
                                balance: bal,
                                amount,
                            },
                        ),
                    ),
                );
            },
        };
        proof {
            lemma_pow256_16();
            if ft_bytes_wf(sv) {
                lemma_balance_write_frame(sv, account_id@, new_bal as nat);
                lemma_balance_write_sum(sv, account_id@, new_bal as nat);
            }
        }
        slot_acct.write(&mut env.store, u128_to_le_bytes(new_bal));
        let new_ts = match ts.checked_add(amount) {
            Some(t) => t,
            None => {
                return Ok(
                    Err(
                        DepositError::TotalSupplyOverflow(
                            TotalSupplyOverflowError { total_supply: ts, amount },
                        ),
                    ),
                );
            },
        };
        proof {
            if ft_bytes_wf(sv) {
                let mid = spec_write_balance(sv, account_id@, new_bal as nat);
                lemma_total_write_frame(mid, new_ts as nat);
                lemma_total_write_sum(mid, new_ts as nat);
            }
        }
        slot_total.write(&mut env.store, u128_to_le_bytes(new_ts));
        Ok(Ok(()))
    }
}

/// The store after a successful deposit of `x` to `a`.
pub open spec fn spec_deposit_store(sv: Seq<(Seq<u8>, Seq<u8>)>, a: Seq<char>, x: nat) -> Seq<
    (Seq<u8>, Seq<u8>),
> {
    spec_write_total(
        spec_write_balance(sv, a, spec_balance_of(sv, a) + x),
        spec_total_supply(sv) + x,
    )
}

/// The store after a successful withdrawal of `x` from `a`.
pub open spec fn spec_withdraw_store(sv: Seq<(Seq<u8>, Seq<u8>)>, a: Seq<char>, x: nat) -> Seq<
    (Seq<u8>, Seq<u8>),
> {
    spec_write_total(
        spec_write_balance(sv, a, (spec_balance_of(sv, a) - x) as nat),
        (spec_total_supply(sv) - x) as nat,
    )
}

/// The store after a successful transfer of `x` from `s` to `r`. A transfer
/// to oneself leaves the store untouched.
pub open spec fn spec_transfer_store(
    sv: Seq<(Seq<u8>, Seq<u8>)>,
    s: Seq<char>,
    r: Seq<char>,
    x: nat,
) -> Seq<(Seq<u8>, Seq<u8>)> {
    if s == r {
        sv
    } else {
        spec_write_balance(
            spec_write_balance(sv, s, (spec_balance_of(sv, s) - x) as nat),
            r,
            spec_balance_of(sv, r) + x,
        )
    }
}

impl Nep141Controller {
    /// Removes `amount` from the account's balance and from the total
    /// supply, with checked arithmetic. Zero amounts are a no-op. No event,
    /// no hook.
    pub fn withdraw_unchecked(env: &mut Env, account_id: &AccountId, amount: u128) -> (r: Result<
        Result<(), WithdrawError>,
        HostAbort,
    >)
        ensures
            store_only_step(*old(env), *final(env)),
            r is Err ==> final(env).store == old(env).store && !ft_bytes_wf(old(env).store@),
            r matches Err(a) ==> a.message@ == ("stored amount has an unexpected shape")@,
            ft_bytes_wf(old(env).store@) ==> ({
                let sv = old(env).store@;
                let a = account_id@;
                let bal = spec_balance_of(sv, a);
                let ts = spec_total_supply(sv);
                &&& (amount == 0 ==> r == Ok::<Result<(), WithdrawError>, HostAbort>(Ok(()))
                    && final(env).store@ == sv)
                &&& (amount > 0 && bal < amount ==> final(env).store@ == sv && (
                r matches Ok(inner) && inner matches Err(e)
                    && e matches WithdrawError::BalanceUnderflow(o) && o.account_id == *account_id
                    && o.balance == bal && o.amount == amount))
                &&& (amount > 0 && bal >= amount && ts < amount ==> final(env).store@
                    == spec_write_balance(sv, a, (bal - amount) as nat) && (
                r matches Ok(inner) && inner matches Err(e)
                    && e matches WithdrawError::TotalSupplyUnderflow(o) && o.total_supply == ts
                    && o.amount == amount))
                &&& (amount > 0 && bal >= amount && ts >= amount ==> ({
                    let post = spec_withdraw_store(sv, a, amount as nat);
                    &&& r == Ok::<Result<(), WithdrawError>, HostAbort>(Ok(()))
                    &&& final(env).store@ == post
                    &&& spec_balance_of(post, a) == bal - amount
                    &&& spec_total_supply(post) == ts - amount
                    &&& forall|b: Seq<char>|
                        account_view_wf(b) && b != a ==> #[trigger] spec_balance_of(post, b)
                            == spec_balance_of(sv, b)
                    &&& ft_bytes_wf(post)
                    &&& (ft_supply_invariant(sv) ==> ft_supply_invariant(post))
                }))
            }),
    {
        proof {
            use_type_invariant(account_id);
            use_type_invariant(&env.store);
        }
        if amount == 0 {
            return Ok(Ok(()));
        }
        let slot_acct = Nep141ControllerInternal::slot_account(account_id);
        let slot_total = Nep141ControllerInternal::slot_total_supply();
        let bal = match read_amount(&env.store, &slot_acct) {
            Ok(b) => b,
            Err(e) => {
                return Err(e);
            },
        };
        let ts = match read_amount(&env.store, &slot_total) {
            Ok(t) => t,
            Err(e) => {
                return Err(e);
            },
        };
        let ghost sv = env.store@;
        let new_bal = match bal.checked_sub(amount) {
            Some(b) => b,
            None => {
                return Ok(
                    Err(
                        WithdrawError::BalanceUnderflow(
                            BalanceUnderflowError {
                                account_id: account_id.clone(),
                                balance: bal,
                                amount,
                            },
                        ),
                    ),
                );
            },
        };
        proof {
            lemma_pow256_16();
            if ft_bytes_wf(sv) {
                lemma_balance_write_frame(sv, account_id@, new_bal as nat);
                lemma_balance_write_sum(sv, account_id@, new_bal as nat);
            }
        }
        slot_acct.write(&mut env.store, u128_to_le_bytes(new_bal));
        let new_ts = match ts.checked_sub(amount) {
            Some(t) => t,
            None => {
                return Ok(
                    Err(
                        WithdrawError::TotalSupplyUnderflow(
                            TotalSupplyUnderflowError { total_supply: ts, amount },
                        ),
                    ),
                );
            },
        };
        proof {
            if ft_bytes_wf(sv) {
                let mid = spec_write_balance(sv, account_id@, new_bal as nat);
                lemma_total_write_frame(mid, new_ts as nat);
                lemma_total_write_sum(mid, new_ts as nat);
            }
        }
        slot_total.write(&mut env.store, u128_to_le_bytes(new_ts));
        Ok(Ok(()))
    }

    /// Moves `amount` from `sender_account_id` to `receiver_account_id`,
    /// with checked arithmetic; the total supply does not change. A transfer
    /// to oneself leaves the balance unchanged. No event, no hook.
    pub fn transfer_unchecked(
        env: &mut Env,
        sender_account_id: &AccountId,
        receiver_account_id: &AccountId,
        amount: u128,
    ) -> (r: Result<Result<(), TransferError>, HostAbort>)
        ensures
            store_only_step(*old(env), *final(env)),
            r is Err ==> final(env).store == old(env).store && !ft_bytes_wf(old(env).store@),
            r matches Err(a) ==> a.message@ == ("stored amount has an unexpected shape")@,
            ft_bytes_wf(old(env).store@) ==> ({
                let sv = old(env).store@;
                let s = sender_account_id@;
                let t = receiver_account_id@;
                let sbal = spec_balance_of(sv, s);
                let rbal = spec_balance_of(sv, t);
                &&& (sbal < amount ==> final(env).store@ == sv && (
                r matches Ok(inner) && inner matches Err(e)
                    && e matches TransferError::BalanceUnderflow(o) && o.account_id
                    == *sender_account_id && o.balance == sbal && o.amount == amount))
                &&& (s != t && sbal >= amount && rbal + amount > u128::MAX ==> final(env).store@
                    == sv && (
                r matches Ok(inner) && inner matches Err(e)
                    && e matches TransferError::BalanceOverflow(o) && o.account_id
                    == *receiver_account_id && o.balance == rbal && o.amount == amount))
                &&& (s == t && sbal >= amount ==> r == Ok::<
                    Result<(), TransferError>,
                    HostAbort,
                >(Ok(())) && final(env).store@ == sv)
                &&& (s != t && sbal >= amount && rbal + amount <= u128::MAX ==> ({
                    let post = spec_transfer_store(sv, s, t, amount as nat);
                    &&& r == Ok::<Result<(), TransferError>, HostAbort>(Ok(()))
                    &&& final(env).store@ == post
                    &&& spec_balance_of(post, s) == sbal - amount
                    &&& spec_balance_of(post, t) == rbal + amount
                    &&& spec_total_supply(post) == spec_total_supply(sv)
                    &&& forall|b: Seq<char>|
                        account_view_wf(b) && b != s && b != t ==> #[trigger] spec_balance_of(
                            post,
                            b,
                        ) == spec_balance_of(sv, b)
                    &&& ft_bytes_wf(post)
                    &&& (ft_supply_invariant(sv) ==> ft_supply_invariant(post))
                }))
            }),
    {
        proof {
            use_type_invariant(sender_account_id);
            use_type_invariant(receiver_account_id);
            use_type_invariant(&env.store);
        }
        let slot_sender = Nep141ControllerInternal::slot_account(sender_account_id);
        let slot_receiver = Nep141ControllerInternal::slot_account(receiver_account_id);
        let sender_balance = match read_amount(&env.store, &slot_sender) {
            Ok(b) => b,
            Err(e) => {
                return Err(e);
            },
        };
        let new_sender_balance = match sender_balance.checked_sub(amount) {
            Some(b) => b,
            None => {
                return Ok(
                    Err(
                        TransferError::BalanceUnderflow(
                            BalanceUnderflowError {
                                account_id: sender_account_id.clone(),
                                balance: sender_balance,
                                amount,
                            },
                        ),
                    ),
                );
            },
        };
        if sender_account_id == receiver_account_id {
            return Ok(Ok(()));
        }
        let receiver_balance = match read_amount(&env.store, &slot_receiver) {
            Ok(b) => b,
            Err(e) => {
                return Err(e);
            },
        };
        let new_receiver_balance = match receiver_balance.checked_add(amount) {
            Some(b) => b,
            None => {
                return Ok(
                    Err(
                        TransferError::BalanceOverflow(
                            BalanceOverflowError {
                                account_id: receiver_account_id.clone(),
                                balance: receiver_balance,
                                amount,
                            },
                        ),
                    ),
                );
            },
        };
        let ghost sv = env.store@;
        proof {
            lemma_pow256_16();
            if ft_bytes_wf(sv) {
                lemma_balance_write_frame(sv, sender_account_id@, new_sender_balance as nat);
                lemma_balance_write_sum(sv, sender_account_id@, new_sender_balance as nat);
            }
        }
        slot_sender.write(&mut env.store, u128_to_le_bytes(new_sender_balance));
        proof {
            if ft_bytes_wf(sv) {
                let mid = spec_write_balance(sv, sender_account_id@, new_sender_balance as nat);
                lemma_ft_keys_distinct(sender_account_id@, receiver_account_id@);
                lemma_balance_write_frame(mid, receiver_account_id@, new_receiver_balance as nat);
                lemma_balance_write_sum(mid, receiver_account_id@, new_receiver_balance as nat);
            }
        }
        slot_receiver.write(&mut env.store, u128_to_le_bytes(new_receiver_balance));
        Ok(Ok(()))
    }
}

/// Under well-formed shapes, every stored balance and the supply counter
/// decode below `2^128`.
pub proof fn lemma_amounts_bounded(sv: Seq<(Seq<u8>, Seq<u8>)>, a: Seq<char>)
    requires
        ft_bytes_wf(sv),
        account_view_wf(a),
    ensures
        spec_balance_of(sv, a) < pow256(16),
        spec_total_supply(sv) < pow256(16),
{
    lemma_pow256_16();
    match lookup(sv, ft_account_key(a)) {
        Some(v) => {
            lemma_value_fits(v);
        },
        None => {},
    }
    match lookup(sv, ft_total_supply_key()) {
        Some(v) => {
            lemma_value_fits(v);
        },
        None => {},
    }
}

/// Depositing `x` to `a` and then withdrawing `x` from `a` restores every
/// balance and the total supply (the round trip of `deposit_unchecked`
/// followed by `withdraw_unchecked` on the stores they produce).
pub proof fn lemma_deposit_withdraw_round_trip(sv: Seq<(Seq<u8>, Seq<u8>)>, a: Seq<char>, x: nat)
    requires
        crate::store::entries_wf(sv),
        ft_bytes_wf(sv),
        account_view_wf(a),
        spec_balance_of(sv, a) + x <= u128::MAX,
        spec_total_supply(sv) + x <= u128::MAX,
    ensures
        ({
            let after = spec_withdraw_store(spec_deposit_store(sv, a, x), a, x);
            &&& spec_balance_of(spec_deposit_store(sv, a, x), a) == spec_balance_of(sv, a) + x
            &&& spec_total_supply(spec_deposit_store(sv, a, x)) == spec_total_supply(sv) + x
            &&& forall|b: Seq<char>|
                account_view_wf(b) ==> #[trigger] spec_balance_of(after, b) == spec_balance_of(
                    sv,
                    b,
                )
            &&& spec_total_supply(after) == spec_total_supply(sv)
        }),
{
    let bal = spec_balance_of(sv, a);
    let ts = spec_total_supply(sv);
    lemma_pow256_16();
    lemma_balance_write_frame(sv, a, bal + x);
    let m1 = spec_write_balance(sv, a, bal + x);
    lemma_total_write_frame(m1, ts + x);
    let dep = spec_write_total(m1, ts + x);
    assert(dep == spec_deposit_store(sv, a, x));
    lemma_balance_write_frame(dep, a, bal);
    let m2 = spec_write_balance(dep, a, bal);
    lemma_total_write_frame(m2, ts);
    let after = spec_write_total(m2, ts);
    assert(after == spec_withdraw_store(dep, a, x));
    assert forall|b: Seq<char>| account_view_wf(b) implies #[trigger] spec_balance_of(after, b)
        == spec_balance_of(sv, b) by {
        if b == a {
            assert(spec_balance_of(after, a) == bal);
        } else {
            assert(spec_balance_of(m1, b) == spec_balance_of(sv, b));
            assert(spec_balance_of(dep, b) == spec_balance_of(sv, b));
            assert(spec_balance_of(m2, b) == spec_balance_of(sv, b));
        }
    }
}

/// Transferring `x` from `a` to `b` and then `x` back from `b` to `a` leaves
/// every balance as it was (the round trip of two `transfer_unchecked`
/// steps on the stores they produce).
pub proof fn lemma_transfer_round_trip(
    sv: Seq<(Seq<u8>, Seq<u8>)>,
    a: Seq<char>,
    b: Seq<char>,
    x: nat,
)
    requires
        crate::store::entries_wf(sv),
        ft_bytes_wf(sv),
        account_view_wf(a),
        account_view_wf(b),
        x <= spec_balance_of(sv, a),
        spec_balance_of(sv, b) + x <= u128::MAX,
    ensures
        ({
            let back = spec_transfer_store(spec_transfer_store(sv, a, b, x), b, a, x);
            forall|c: Seq<char>|
                account_view_wf(c) ==> #[trigger] spec_balance_of(back, c) == spec_balance_of(
                    sv,
                    c,
                )
        }),
        spec_total_supply(spec_transfer_store(sv, a, b, x)) == spec_total_supply(sv),
{
    if a == b {
    } else {
        let abal = spec_balance_of(sv, a);
        let bbal = spec_balance_of(sv, b);
        lemma_pow256_16();
        lemma_amounts_bounded(sv, a);
        lemma_amounts_bounded(sv, b);
        lemma_ft_keys_distinct(a, b);
        lemma_balance_write_frame(sv, a, (abal - x) as nat);
        let m1 = spec_write_balance(sv, a, (abal - x) as nat);
        lemma_balance_write_frame(m1, b, bbal + x);
        let fwd = spec_write_balance(m1, b, bbal + x);
        assert(fwd == spec_transfer_store(sv, a, b, x));
        assert(spec_balance_of(fwd, a) == abal - x);
        assert(spec_balance_of(fwd, b) == bbal + x);
        lemma_balance_write_frame(fwd, b, bbal);
        let m2 = spec_write_balance(fwd, b, bbal);
        lemma_balance_write_frame(m2, a, abal);
        let back = spec_write_balance(m2, a, abal);
        assert(back == spec_transfer_store(fwd, b, a, x));
        assert forall|c: Seq<char>| account_view_wf(c) implies #[trigger] spec_balance_of(back, c)
            == spec_balance_of(sv, c) by {
            if c == a {
                assert(spec_balance_of(back, a) == abal);
            } else if c == b {
                assert(spec_balance_of(m2, b) == bbal);
                assert(spec_balance_of(back, b) == bbal);
            } else {
                assert(spec_balance_of(m1, c) == spec_balance_of(sv, c));
                assert(spec_balance_of(fwd, c) == spec_balance_of(sv, c));
                assert(spec_balance_of(m2, c) == spec_balance_of(sv, c));
            }
        }
    }
}

/// Transfer metadata, for both plain transfers and transfer-calls.
pub struct Nep141Transfer {
    /// Sender's account ID.
    pub sender_id: AccountId,
    /// Receiver's account ID.
    pub receiver_id: AccountId,
    /// Transferred amount.
    pub amount: u128,
    /// Optional memo string.
    pub memo: Option<String>,
    /// Message passed to the receiving contract, for transfer-calls.
    pub msg: Option<String>,
    /// Whether this transfer reverts an earlier transfer-call.
    pub revert: bool,
}

impl Nep141Transfer {
    /// Create a new transfer action.
    pub fn new(amount: u128, sender_id: AccountId, receiver_id: AccountId) -> (r: Self)
        ensures
            r.sender_id == sender_id,
            r.receiver_id == receiver_id,
            r.amount == amount,
            r.memo is None,
            r.msg is None,
            !r.revert,
    {
        Nep141Transfer { sender_id, receiver_id, amount, memo: None, msg: None, revert: false }
    }

    /// Add a memo string.
    #[must_use]
    pub fn memo(self, memo: String) -> (r: Self)
        ensures
            r == (Nep141Transfer { memo: Some(memo), ..self }),
    {
        Nep141Transfer { memo: Some(memo), ..self }
    }

    /// Add a message string.
    #[must_use]
    pub fn msg(self, msg: String) -> (r: Self)
        ensures
            r == (Nep141Transfer { msg: Some(msg), ..self }),
    {
        Nep141Transfer { msg: Some(msg), ..self }
    }

    /// Whether this transfer comes from a transfer-call.
    #[must_use]
    pub fn is_transfer_call(&self) -> (r: bool)
        ensures
            r == (self.msg is Some),
    {
        self.msg.is_some()
    }
}

/// Describes a mint operation.
pub struct Nep141Mint {
    /// Amount to mint.
    pub amount: u128,
    /// Account ID to mint to.
    pub receiver_id: AccountId,
    /// Optional memo string.
    pub memo: Option<String>,
}

impl Nep141Mint {
    /// Create a new mint action.
    pub fn new(amount: u128, receiver_id: AccountId) -> (r: Self)
        ensures
            r.amount == amount,
            r.receiver_id == receiver_id,
            r.memo is None,
    {
        Nep141Mint { amount, receiver_id, memo: None }
    }

    /// Add a memo string.
    #[must_use]
    pub fn memo(self, memo: String) -> (r: Self)
        ensures
            r == (Nep141Mint { memo: Some(memo), ..self }),
    {
        Nep141Mint { memo: Some(memo), ..self }
    }
}

/// Describes a burn operation.
pub struct Nep141Burn {
    /// Amount to burn.
    pub amount: u128,
    /// Account ID to burn from.
    pub owner_id: AccountId,
    /// Optional memo string.
    pub memo: Option<String>,
}

impl Nep141Burn {
    /// Create a new burn action.
    pub fn new(amount: u128, owner_id: AccountId) -> (r: Self)
        ensures
            r.amount == amount,
            r.owner_id == owner_id,
            r.memo is None,
    {
        Nep141Burn { amount, owner_id, memo: None }
    }

    /// Add a memo string.
    #[must_use]
    pub fn memo(self, memo: String) -> (r: Self)
        ensures
            r == (Nep141Burn { memo: Some(memo), ..self }),
    {
        Nep141Burn { memo: Some(memo), ..self }
    }
}

/// The closing of an event record: the optional memo field and the end of
/// the one-record data array.
pub open spec fn memo_tail(memo: Option<Seq<char>>) -> Seq<char> {
    match memo {
        Some(m) => ("\",\"memo\":\"")@ + crate::text::json_escaped(m) + ("\"}]")@,
        None => ("\"}]")@,
    }
}

/// The data array of a single-record `ft_transfer` event.
pub open spec fn ft_transfer_data(
    old_owner: Seq<char>,
    new_owner: Seq<char>,
    amount: nat,
    memo: Option<Seq<char>>,
) -> Seq<char> {
    ("[{\"old_owner_id\":\"")@ + crate::text::json_escaped(old_owner) + ("\",\"new_owner_id\":\"")@
        + crate::text::json_escaped(new_owner) + ("\",\"amount\":\"")@ + crate::text::dec_str(
        amount,
    ) + memo_tail(memo)
}

/// The data array of a single-record `ft_mint` event.
pub open spec fn ft_mint_data(owner: Seq<char>, amount: nat, memo: Option<Seq<char>>) -> Seq<
    char,
> {
    ("[{\"owner_id\":\"")@ + crate::text::json_escaped(owner) + ("\",\"amount\":\"")@
        + crate::text::dec_str(amount) + memo_tail(memo)
}

/// The data array of a single-record `ft_burn` event.
pub open spec fn ft_burn_data(owner: Seq<char>, amount: nat, memo: Option<Seq<char>>) -> Seq<
    char,
> {
    ft_mint_data(owner, amount, memo)
}

/// The full `ft_transfer` log line.
pub open spec fn ft_transfer_line(
    old_owner: Seq<char>,
    new_owner: Seq<char>,
    amount: nat,
    memo: Option<Seq<char>>,
) -> Seq<char> {
    crate::event::event_line(
        ("nep141")@,
        ("1.0.0")@,
        ("ft_transfer")@,
        ft_transfer_data(old_owner, new_owner, amount, memo),
    )
}

/// The full `ft_mint` log line.
pub open spec fn ft_mint_line(owner: Seq<char>, amount: nat, memo: Option<Seq<char>>) -> Seq<
    char,
> {
    crate::event::event_line(("nep141")@, ("1.0.0")@, ("ft_mint")@, ft_mint_data(owner, amount, memo))
}

/// The full `ft_burn` log line.
pub open spec fn ft_burn_line(owner: Seq<char>, amount: nat, memo: Option<Seq<char>>) -> Seq<
    char,
> {
    crate::event::event_line(("nep141")@, ("1.0.0")@, ("ft_burn")@, ft_burn_data(owner, amount, memo))
}

/// Renders the memo tail of a record.
fn build_memo_tail(out: &mut String, memo: &Option<String>)
    ensures
        final(out)@ == old(out)@ + memo_tail(memo.deep_view()),
{
    match memo {
        Some(m) => {
            vstd::string::StringExecFns::append(out, "\",\"memo\":\"");
            crate::text::append_json_escaped(out, m.as_str());
            vstd::string::StringExecFns::append(out, "\"}]");
            proof {
                assert(out@ =~= old(out)@ + memo_tail(memo.deep_view()));
            }
        },
        None => {
            vstd::string::StringExecFns::append(out, "\"}]");
            proof {
                assert(out@ =~= old(out)@ + memo_tail(memo.deep_view()));
            }
        },
    }
}

/// Renders the data array of a single-record owner/amount event.
fn build_owner_amount_data(owner: &AccountId, amount: u128, memo: &Option<String>) -> (r: String)
    ensures
        r@ == ft_mint_data(owner@, amount as nat, memo.deep_view()),
{
    let mut out = String::new();
    vstd::string::StringExecFns::append(&mut out, "[{\"owner_id\":\"");
    crate::text::append_json_escaped(&mut out, owner.as_str());
    vstd::string::StringExecFns::append(&mut out, "\",\"amount\":\"");
    let dec = crate::text::u128_to_dec(amount);
    vstd::string::StringExecFns::append(&mut out, dec.as_str());
    build_memo_tail(&mut out, memo);
    proof {
        assert(out@ =~= ft_mint_data(owner@, amount as nat, memo.deep_view()));
    }
    out
}

/// Renders the data array of a single-record `ft_transfer` event.
fn build_transfer_data(
    old_owner: &AccountId,
    new_owner: &AccountId,
    amount: u128,
    memo: &Option<String>,
) -> (r: String)
    ensures
        r@ == ft_transfer_data(old_owner@, new_owner@, amount as nat, memo.deep_view()),
{
    let mut out = String::new();
    vstd::string::StringExecFns::append(&mut out, "[{\"old_owner_id\":\"");
    crate::text::append_json_escaped(&mut out, old_owner.as_str());
    vstd::string::StringExecFns::append(&mut out, "\",\"new_owner_id\":\"");
    crate::text::append_json_escaped(&mut out, new_owner.as_str());
    vstd::string::StringExecFns::append(&mut out, "\",\"amount\":\"");
    let dec = crate::text::u128_to_dec(amount);
    vstd::string::StringExecFns::append(&mut out, dec.as_str());
    build_memo_tail(&mut out, memo);
    proof {
        assert(out@ =~= ft_transfer_data(old_owner@, new_owner@, amount as nat, memo.deep_view()));
    }
    out
}

/// What one mint does to the environment: the deposit arithmetic of
/// `deposit_unchecked`, plus the `ft_mint` event on success. Zero amounts do
/// nothing and log nothing.
pub open spec fn mint_step(
    pre: Env,
    post: Env,
    m: Nep141Mint,
    r: Result<Result<(), DepositError>, HostAbort>,
) -> bool {
    &&& post.promises == pre.promises
    &&& same_context(pre, post)
    &&& (r is Err ==> post.store == pre.store && post.logs == pre.logs && !ft_bytes_wf(
        pre.store@,
    ))
    &&& (ft_bytes_wf(pre.store@) ==> ({
        let sv = pre.store@;
        let a = m.receiver_id@;
        let bal = spec_balance_of(sv, a);
        let ts = spec_total_supply(sv);
        &&& (m.amount == 0 ==> r == Ok::<Result<(), DepositError>, HostAbort>(Ok(()))
            && post.store@ == sv && post.logs == pre.logs)
        &&& (m.amount > 0 && bal + m.amount > u128::MAX ==> post.store@ == sv && post.logs
            == pre.logs && (
        r matches Ok(inner) && inner matches Err(e) && e matches DepositError::BalanceOverflow(o)
            && o.account_id == m.receiver_id && o.balance == bal && o.amount == m.amount))
        &&& (m.amount > 0 && bal + m.amount <= u128::MAX && ts + m.amount > u128::MAX ==> (
        post.store@ == spec_write_balance(sv, a, (bal + m.amount) as nat) && post.logs == pre.logs
            && (
        r matches Ok(inner) && inner matches Err(e) && e matches DepositError::TotalSupplyOverflow(
            o,
        ) && o.total_supply == ts && o.amount == m.amount)))
        &&& (m.amount > 0 && bal + m.amount <= u128::MAX && ts + m.amount <= u128::MAX ==> ({
            let postsv = spec_deposit_store(sv, a, m.amount as nat);
            &&& r == Ok::<Result<(), DepositError>, HostAbort>(Ok(()))
            &&& post.store@ == postsv
            &&& post.logs.deep_view() == pre.logs.deep_view().push(
                ft_mint_line(a, m.amount as nat, m.memo.deep_view()),
            )
            &&& ft_bytes_wf(postsv)
            &&& (ft_supply_invariant(sv) ==> ft_supply_invariant(postsv))
        }))
    }))
}

/// What one burn does to the environment: the withdrawal arithmetic of
/// `withdraw_unchecked`, plus the `ft_burn` event on success.
pub open spec fn burn_step(
    pre: Env,
    post: Env,
    b: Nep141Burn,
    r: Result<Result<(), WithdrawError>, HostAbort>,
) -> bool {
    &&& post.promises == pre.promises
    &&& same_context(pre, post)
    &&& (r is Err ==> post.store == pre.store && post.logs == pre.logs && !ft_bytes_wf(
        pre.store@,
    ))
    &&& (ft_bytes_wf(pre.store@) ==> ({
        let sv = pre.store@;
        let a = b.owner_id@;
        let bal = spec_balance_of(sv, a);
        let ts = spec_total_supply(sv);
        &&& (b.amount == 0 ==> r == Ok::<Result<(), WithdrawError>, HostAbort>(Ok(()))
            && post.store@ == sv && post.logs == pre.logs)
        &&& (b.amount > 0 && bal < b.amount ==> post.store@ == sv && post.logs == pre.logs && (
        r matches Ok(inner) && inner matches Err(e) && e matches WithdrawError::BalanceUnderflow(o)
            && o.account_id == b.owner_id && o.balance == bal && o.amount == b.amount))
        &&& (b.amount > 0 && bal >= b.amount && ts < b.amount ==> (post.store@
            == spec_write_balance(sv, a, (bal - b.amount) as nat) && post.logs == pre.logs && (
        r matches Ok(inner) && inner matches Err(e) && e matches WithdrawError::TotalSupplyUnderflow(
            o,
        ) && o.total_supply == ts && o.amount == b.amount)))
        &&& (b.amount > 0 && bal >= b.amount && ts >= b.amount ==> ({
            let postsv = spec_withdraw_store(sv, a, b.amount as nat);
            &&& r == Ok::<Result<(), WithdrawError>, HostAbort>(Ok(()))
            &&& post.store@ == postsv
            &&& post.logs.deep_view() == pre.logs.deep_view().push(
                ft_burn_line(a, b.amount as nat, b.memo.deep_view()),
            )
            &&& ft_bytes_wf(postsv)
            &&& (ft_supply_invariant(sv) ==> ft_supply_invariant(postsv))
        }))
    }))
}

/// What one transfer does to the environment: the balance moves of
/// `transfer_unchecked`, plus the `ft_transfer` event on success. A transfer
/// to oneself moves nothing but still logs the event.
pub open spec fn transfer_step(
    pre: Env,
    post: Env,
    t: Nep141Transfer,
    r: Result<Result<(), TransferError>, HostAbort>,
) -> bool {
    &&& post.promises == pre.promises
    &&& same_context(pre, post)
    &&& (r is Err ==> post.store == pre.store && post.logs == pre.logs && !ft_bytes_wf(
        pre.store@,
    ))
    &&& (ft_bytes_wf(pre.store@) ==> ({
        let sv = pre.store@;
        let s = t.sender_id@;
        let d = t.receiver_id@;
        let sbal = spec_balance_of(sv, s);
        let rbal = spec_balance_of(sv, d);
        &&& (t.amount == 0 ==> r == Ok::<Result<(), TransferError>, HostAbort>(Ok(()))
            && post.store@ == sv && post.logs == pre.logs)
        &&& (t.amount > 0 && sbal < t.amount ==> post.store@ == sv && post.logs == pre.logs && (
        r matches Ok(inner) && inner matches Err(e) && e matches TransferError::BalanceUnderflow(o)
            && o.account_id == t.sender_id && o.balance == sbal && o.amount == t.amount))
        &&& (t.amount > 0 && s != d && sbal >= t.amount && rbal + t.amount > u128::MAX ==> (
        post.store@ == sv && post.logs == pre.logs && (
        r matches Ok(inner) && inner matches Err(e) && e matches TransferError::BalanceOverflow(o)
            && o.account_id == t.receiver_id && o.balance == rbal && o.amount == t.amount)))
        &&& (t.amount > 0 && sbal >= t.amount && (s == d || rbal + t.amount <= u128::MAX) ==> ({
            let postsv = spec_transfer_store(sv, s, d, t.amount as nat);
            &&& r == Ok::<Result<(), TransferError>, HostAbort>(Ok(()))
            &&& post.store@ == postsv
            &&& post.logs.deep_view() == pre.logs.deep_view().push(
                ft_transfer_line(s, d, t.amount as nat, t.memo.deep_view()),
            )
            &&& ft_bytes_wf(postsv)
            &&& (ft_supply_invariant(sv) ==> ft_supply_invariant(postsv))
        }))
    }))
}

/// The mint operation without its hook: deposit, then the `ft_mint` event.
pub(crate) fn apply_mint(env: &mut Env, m: &Nep141Mint) -> (r: Result<
    Result<(), DepositError>,
    HostAbort,
>)
    ensures
        mint_step(*old(env), *final(env), *m, r),
        r matches Err(a) ==> a.message@ == ("stored amount has an unexpected shape")@,
{
    if m.amount == 0 {
        return Ok(Ok(()));
    }
    match Nep141Controller::deposit_unchecked(env, &m.receiver_id, m.amount) {
        Ok(inner) => match inner {
            Ok(()) => {
                let data = build_owner_amount_data(&m.receiver_id, m.amount, &m.memo);
                crate::event::emit_event(env, "nep141", "1.0.0", "ft_mint", data.as_str());
                Ok(Ok(()))
            },
            Err(e) => Ok(Err(e)),
        },
        Err(e) => Err(e),
    }
}

/// The burn operation without its hook: withdraw, then the `ft_burn` event.
pub(crate) fn apply_burn(env: &mut Env, b: &Nep141Burn) -> (r: Result<
    Result<(), WithdrawError>,
    HostAbort,
>)
    ensures
        burn_step(*old(env), *final(env), *b, r),
        r matches Err(a) ==> a.message@ == ("stored amount has an unexpected shape")@,
{
    if b.amount == 0 {
        return Ok(Ok(()));
    }
    match Nep141Controller::withdraw_unchecked(env, &b.owner_id, b.amount) {
        Ok(inner) => match inner {
            Ok(()) => {
                let data = build_owner_amount_data(&b.owner_id, b.amount, &b.memo);
                crate::event::emit_event(env, "nep141", "1.0.0", "ft_burn", data.as_str());
                Ok(Ok(()))
            },
            Err(e) => Ok(Err(e)),
        },
        Err(e) => Err(e),
    }
}

/// The transfer operation without its hook: move the balance, then the
/// `ft_transfer` event.
pub(crate) fn apply_transfer(env: &mut Env, t: &Nep141Transfer) -> (r: Result<
    Result<(), TransferError>,
    HostAbort,
>)
    ensures
        transfer_step(*old(env), *final(env), *t, r),
        r matches Err(a) ==> a.message@ == ("stored amount has an unexpected shape")@,
{
    if t.amount == 0 {
        return Ok(Ok(()));
    }
    match Nep141Controller::transfer_unchecked(env, &t.sender_id, &t.receiver_id, t.amount) {
        Ok(inner) => match inner {
            Ok(()) => {
                let data = build_transfer_data(&t.sender_id, &t.receiver_id, t.amount, &t.memo);
                crate::event::emit_event(env, "nep141", "1.0.0", "ft_transfer", data.as_str());
                Ok(Ok(()))
            },
            Err(e) => Ok(Err(e)),
        },
        Err(e) => Err(e),
    }
}

impl Nep141Controller {
    /// Token mint with event emission, wrapped in the mint hook `H`. When
    /// the call completes, its result came from one mint step on some state;
    /// with the unit hook that state is the environment itself.
    pub fn mint<H: crate::hook::Hook<Env, Nep141Mint>>(env: &mut Env, mint: &Nep141Mint) -> (r:
        Result<Result<(), DepositError>, HostAbort>)
        ensures
            r is Ok ==> exists|pre: Env, post: Env| mint_step(pre, post, *mint, r),
    {
        let inner = |c: &mut Env| -> (rr: Result<Result<(), DepositError>, HostAbort>)
            ensures
                mint_step(*old(c), *final(c), *mint, rr),
            {
                apply_mint(c, mint)
            };
        let r = H::hook(env, mint, inner);
        proof {
            if r is Ok {
                let x = choose|x: &mut Env| call_ensures(inner, (x,), r);
                assert(mint_step(mut_ref_current(x), mut_ref_future(x), *mint, r));
            }
        }
        r
    }

    /// Token burn with event emission, wrapped in the burn hook `H`.
    pub fn burn<H: crate::hook::Hook<Env, Nep141Burn>>(env: &mut Env, burn: &Nep141Burn) -> (r:
        Result<Result<(), WithdrawError>, HostAbort>)
        ensures
            r is Ok ==> exists|pre: Env, post: Env| burn_step(pre, post, *burn, r),
    {
        let inner = |c: &mut Env| -> (rr: Result<Result<(), WithdrawError>, HostAbort>)
            ensures
                burn_step(*old(c), *final(c), *burn, rr),
            {
                apply_burn(c, burn)
            };
        let r = H::hook(env, burn, inner);
        proof {
            if r is Ok {
                let x = choose|x: &mut Env| call_ensures(inner, (x,), r);
                assert(burn_step(mut_ref_current(x), mut_ref_future(x), *burn, r));
            }
        }
        r
    }

    /// Token transfer with event emission, wrapped in the transfer hook `H`.
    pub fn transfer<H: crate::hook::Hook<Env, Nep141Transfer>>(
        env: &mut Env,
        transfer: &Nep141Transfer,
    ) -> (r: Result<Result<(), TransferError>, HostAbort>)
        ensures
            r is Ok ==> exists|pre: Env, post: Env| transfer_step(pre, post, *transfer, r),
    {
        let inner = |c: &mut Env| -> (rr: Result<Result<(), TransferError>, HostAbort>)
            ensures
                transfer_step(*old(c), *final(c), *transfer, rr),
            {
                apply_transfer(c, transfer)
            };
        let r = H::hook(env, transfer, inner);
        proof {
            if r is Ok {
                let x = choose|x: &mut Env| call_ensures(inner, (x,), r);
                assert(transfer_step(mut_ref_current(x), mut_ref_future(x), *transfer, r));
            }
        }
        r
    }
}

/// Gas reserved for the `ft_resolve_transfer` callback.
pub const GAS_FOR_RESOLVE_TRANSFER: u64 = 5_000_000_000_000;

/// Gas reserved for an `ft_transfer_call` call, including its resolve
/// callback.
pub const GAS_FOR_FT_TRANSFER_CALL: u64 = 25_000_000_000_000 + GAS_FOR_RESOLVE_TRANSFER;

impl TransferError {
    /// A short description, for the wire layer's abort message.
    pub fn message(&self) -> (r: String)
        ensures
            self is BalanceOverflow ==> r@ == ("Balance overflow")@,
            self is BalanceUnderflow ==> r@ == ("Balance underflow")@,
    {
        match self {
            TransferError::BalanceOverflow(_) => <String as vstd::string::StringExecFns>::from_str(
                "Balance overflow",
            ),
            TransferError::BalanceUnderflow(_) => <String as vstd::string::StringExecFns>::from_str(
                "Balance underflow",
            ),
        }
    }
}

impl WithdrawError {
    /// A short description, for the wire layer's abort message.
    pub fn message(&self) -> (r: String)
        ensures
            self is BalanceUnderflow ==> r@ == ("Balance underflow")@,
            self is TotalSupplyUnderflow ==> r@ == ("Total supply underflow")@,
    {
        match self {
            WithdrawError::BalanceUnderflow(_) => <String as vstd::string::StringExecFns>::from_str(
                "Balance underflow",
            ),
            WithdrawError::TotalSupplyUnderflow(_) => <String as vstd::string::StringExecFns>::from_str(
                "Total supply underflow",
            ),
        }
    }
}

impl DepositError {
    /// A short description, for the wire layer's abort message.
    pub fn message(&self) -> (r: String)
        ensures
            self is BalanceOverflow ==> r@ == ("Balance overflow")@,
            self is TotalSupplyOverflow ==> r@ == ("Total supply overflow")@,
    {
        match self {
            DepositError::BalanceOverflow(_) => <String as vstd::string::StringExecFns>::from_str(
                "Balance overflow",
            ),
            DepositError::TotalSupplyOverflow(_) => <String as vstd::string::StringExecFns>::from_str(
                "Total supply overflow",
            ),
        }
    }
}

/// The JSON arguments of the scheduled `ft_on_transfer` call.
pub open spec fn ft_on_transfer_args(sender: Seq<char>, amount: nat, msg: Seq<char>) -> Seq<
    char,
> {
    ("{\"sender_id\":\"")@ + crate::text::json_escaped(sender) + ("\",\"amount\":\"")@
        + crate::text::dec_str(amount) + ("\",\"msg\":\"")@ + crate::text::json_escaped(msg) + (
    "\"}")@
}

/// The JSON arguments of the scheduled `ft_resolve_transfer` callback.
pub open spec fn ft_resolve_args(sender: Seq<char>, receiver: Seq<char>, amount: nat) -> Seq<
    char,
> {
    ("{\"sender_id\":\"")@ + crate::text::json_escaped(sender) + ("\",\"receiver_id\":\"")@
        + crate::text::json_escaped(receiver) + ("\",\"amount\":\"")@ + crate::text::dec_str(
        amount,
    ) + ("\"}")@
}

fn build_ft_on_transfer_args(sender: &AccountId, amount: u128, msg: &str) -> (r: String)
    ensures
        r@ == ft_on_transfer_args(sender@, amount as nat, msg@),
{
    let mut out = String::new();
    vstd::string::StringExecFns::append(&mut out, "{\"sender_id\":\"");
    crate::text::append_json_escaped(&mut out, sender.as_str());
    vstd::string::StringExecFns::append(&mut out, "\",\"amount\":\"");
    let dec = crate::text::u128_to_dec(amount);
    vstd::string::StringExecFns::append(&mut out, dec.as_str());
    vstd::string::StringExecFns::append(&mut out, "\",\"msg\":\"");
    crate::text::append_json_escaped(&mut out, msg);
    vstd::string::StringExecFns::append(&mut out, "\"}");
    proof {
        assert(out@ =~= ft_on_transfer_args(sender@, amount as nat, msg@));
    }
    out
}

fn build_ft_resolve_args(sender: &AccountId, receiver: &AccountId, amount: u128) -> (r: String)
    ensures
        r@ == ft_resolve_args(sender@, receiver@, amount as nat),
{
    let mut out = String::new();
    vstd::string::StringExecFns::append(&mut out, "{\"sender_id\":\"");
    crate::text::append_json_escaped(&mut out, sender.as_str());
    vstd::string::StringExecFns::append(&mut out, "\",\"receiver_id\":\"");
    crate::text::append_json_escaped(&mut out, receiver.as_str());
    vstd::string::StringExecFns::append(&mut out, "\",\"amount\":\"");
    let dec = crate::text::u128_to_dec(amount);
    vstd::string::StringExecFns::append(&mut out, dec.as_str());
    vstd::string::StringExecFns::append(&mut out, "\"}");
    proof {
        assert(out@ =~= ft_resolve_args(sender@, receiver@, amount as nat));
    }
    out
}

/// The promise chain an `ft_transfer_call` schedules: `ft_on_transfer` on
/// the receiver, then `ft_resolve_transfer` on the token contract itself.
pub open spec fn transfer_call_chain(
    chain: Seq<crate::env::PromiseLink>,
    sender: Seq<char>,
    receiver: Seq<char>,
    current: Seq<char>,
    amount: nat,
    msg: Seq<char>,
) -> bool {
    &&& chain.len() == 2
    &&& chain[0].receiver@ == receiver
    &&& chain[0].action matches crate::env::PromiseAction::FunctionCall { method, args, deposit, gas }
        && method@ == ("ft_on_transfer")@ && args@ == ft_on_transfer_args(sender, amount, msg)
        && deposit == 0 && gas == GAS_FOR_FT_TRANSFER_CALL - GAS_FOR_RESOLVE_TRANSFER
    &&& chain[1].receiver@ == current
    &&& chain[1].action matches crate::env::PromiseAction::FunctionCall { method, args, deposit, gas }
        && method@ == ("ft_resolve_transfer")@ && args@ == ft_resolve_args(
        sender,
        receiver,
        amount,
    ) && deposit == 0 && gas == GAS_FOR_RESOLVE_TRANSFER
}

/// Performs the wire-level `ft_transfer`: demands exactly one attached
/// yocto, then runs the hooked transfer as the caller, converting any
/// transfer error into a host abort.
pub fn ft_transfer<H: crate::hook::Hook<Env, Nep141Transfer>>(
    env: &mut Env,
    receiver_id: AccountId,
    amount: u128,
    memo: Option<String>,
) -> (r: Result<(), HostAbort>)
    ensures
        old(env).attached_deposit != 1 ==> r is Err && *final(env) == *old(env),
        r is Ok ==> exists|pre: Env, post: Env, t: Nep141Transfer|
            {
                &&& t.sender_id == old(env).predecessor
                &&& t.receiver_id == receiver_id
                &&& t.amount == amount
                &&& t.msg is None
                &&& !t.revert
                &&& #[trigger] transfer_step(
                    pre,
                    post,
                    t,
                    Ok::<Result<(), TransferError>, HostAbort>(Ok(())),
                )
            },
{
    if env.attached_deposit != 1 {
        return Err(
            HostAbort {
                message: <String as vstd::string::StringExecFns>::from_str(
                    "Requires attached deposit of exactly 1 yoctoNEAR",
                ),
            },
        );
    }
    let sender = env.predecessor.clone();
    let transfer = match memo {
        Some(m) => Nep141Transfer::new(amount, sender, receiver_id).memo(m),
        None => Nep141Transfer::new(amount, sender, receiver_id),
    };
    let res = Nep141Controller::transfer::<H>(env, &transfer);
    match res {
        Ok(inner) => match inner {
            Ok(()) => {
                proof {
                    let (pre, post): (Env, Env) = choose|pre: Env, post: Env|
                        transfer_step(pre, post, transfer, res);
                    assert(transfer_step(
                        pre,
                        post,
                        transfer,
                        Ok::<Result<(), TransferError>, HostAbort>(Ok(())),
                    ));
                }
                Ok(())
            },
            Err(e) => Err(HostAbort { message: e.message() }),
        },
        Err(a) => Err(a),
    }
}

/// Performs the wire-level `ft_transfer_call`: one attached yocto, the
/// hooked transfer, then the scheduled `ft_on_transfer` call chained into
/// `ft_resolve_transfer` on the token contract itself.
pub fn ft_transfer_call<H: crate::hook::Hook<Env, Nep141Transfer>>(
    env: &mut Env,
    receiver_id: AccountId,
    amount: u128,
    memo: Option<String>,
    msg: String,
) -> (r: Result<(), HostAbort>)
    ensures
        old(env).attached_deposit != 1 ==> r is Err && *final(env) == *old(env),
        r is Ok ==> ({
            &&& exists|pre: Env, post: Env, t: Nep141Transfer|
                {
                    &&& t.sender_id == old(env).predecessor
                    &&& t.receiver_id == receiver_id
                    &&& t.amount == amount
                    &&& t.msg matches Some(m) && m@ == msg@
                    &&& !t.revert
                    &&& #[trigger] transfer_step(
                        pre,
                        post,
                        t,
                        Ok::<Result<(), TransferError>, HostAbort>(Ok(())),
                    )
                }
            &&& final(env).promises@.len() > 0
            &&& transfer_call_chain(
                final(env).promises@.last()@,
                old(env).predecessor@,
                receiver_id@,
                old(env).current_account@,
                amount as nat,
                msg@,
            )
        }),
{
    if env.attached_deposit != 1 {
        return Err(
            HostAbort {
                message: <String as vstd::string::StringExecFns>::from_str(
                    "Requires attached deposit of exactly 1 yoctoNEAR",
                ),
            },
        );
    }
    let sender = env.predecessor.clone();
    let current = env.current_account.clone();
    let transfer = match &memo {
        Some(m) => Nep141Transfer::new(amount, sender.clone(), receiver_id.clone()).memo(
            m.clone(),
        ).msg(msg.clone()),
        None => Nep141Transfer::new(amount, sender.clone(), receiver_id.clone()).msg(msg.clone()),
    };
    let res = Nep141Controller::transfer::<H>(env, &transfer);
    match res {
        Ok(inner) => match inner {
            Ok(()) => {
                proof {
                    let (pre, post): (Env, Env) = choose|pre: Env, post: Env|
                        transfer_step(pre, post, transfer, res);
                    assert(transfer_step(
                        pre,
                        post,
                        transfer,
                        Ok::<Result<(), TransferError>, HostAbort>(Ok(())),
                    ));
                }
            },
            Err(e) => {
                return Err(HostAbort { message: e.message() });
            },
        },
        Err(a) => {
            return Err(a);
        },
    }
    let call_args = build_ft_on_transfer_args(&sender, amount, msg.as_str());
    let resolve_args = build_ft_resolve_args(&sender, &receiver_id, amount);
    let ghost receiver_view = receiver_id@;
    let mut chain: Vec<crate::env::PromiseLink> = Vec::new();
    chain.push(
        crate::env::PromiseLink {
            receiver: receiver_id,
            action: crate::env::PromiseAction::FunctionCall {
                method: <String as vstd::string::StringExecFns>::from_str("ft_on_transfer"),
                args: call_args,
                deposit: 0,
                gas: GAS_FOR_FT_TRANSFER_CALL - GAS_FOR_RESOLVE_TRANSFER,
            },
        },
    );
    chain.push(
        crate::env::PromiseLink {
            receiver: current,
            action: crate::env::PromiseAction::FunctionCall {
                method: <String as vstd::string::StringExecFns>::from_str("ft_resolve_transfer"),
                args: resolve_args,
                deposit: 0,
                gas: GAS_FOR_RESOLVE_TRANSFER,
            },
        },
    );
    proof {
        assert(chain@.len() == 2);
        assert(transfer_call_chain(
            chain@,
            old(env).predecessor@,
            receiver_view,
            old(env).current_account@,
            amount as nat,
            msg@,
        ));
    }
    env.schedule(chain);
    Ok(())
}

/// The wire-level `ft_balance_of`: the balance as a decimal string.
pub fn ft_balance_of(env: &Env, account_id: &AccountId) -> (r: Result<String, HostAbort>)
    ensures
        ft_bytes_wf(env.store@) ==> (r matches Ok(s) && s@ == crate::text::dec_str(
            spec_balance_of(env.store@, account_id@),
        )),
{
    let bal = Nep141Controller::balance_of(env, account_id)?;
    Ok(crate::text::u128_to_dec(bal))
}

/// The wire-level `ft_total_supply`: the supply as a decimal string.
pub fn ft_total_supply(env: &Env) -> (r: Result<String, HostAbort>)
    ensures
        ft_bytes_wf(env.store@) ==> (r matches Ok(s) && s@ == crate::text::dec_str(
            spec_total_supply(env.store@),
        )),
{
    let ts = Nep141Controller::total_supply(env)?;
    Ok(crate::text::u128_to_dec(ts))
}

/// The unused amount a transfer-call receiver reported back: its returned
/// decimal string, zero when the callback failed or returned anything else.
pub open spec fn spec_unused(returned: Option<Seq<char>>) -> nat {
    match returned {
        Some(s) => if crate::text::is_dec_seq(s) && crate::text::dec_val(s) <= u128::MAX {
            crate::text::dec_val(s)
        } else {
            0
        },
        None => 0,
    }
}

/// Resolves an earlier `ft_transfer_call`: refunds `min(amount, unused)`
/// from the receiver back to the sender — by hooked transfer while the
/// sender's balance slot still exists, by hooked burn once it is gone — and
/// returns the used amount as a decimal string. If any refund step fails,
/// the whole refund is dropped. Callable only by the token contract itself.
///
/// When the receiver reports the whole amount as used (an unused amount of
/// zero), the environment is left exactly as the transfer left it: the
/// transfer-call then has the same outcome as a plain transfer.
pub fn ft_resolve_transfer<
    TH: crate::hook::Hook<Env, Nep141Transfer>,
    BH: crate::hook::Hook<Env, Nep141Burn>,
>(
    env: &mut Env,
    sender_id: AccountId,
    receiver_id: AccountId,
    amount: u128,
    returned: Option<String>,
) -> (r: Result<String, HostAbort>)
    ensures
        old(env).predecessor@ != old(env).current_account@ ==> r is Err && *final(env) == *old(
            env,
        ),
        ({
            let unused = spec_unused(returned.deep_view());
            let refund = if unused < amount as nat {
                unused
            } else {
                amount as nat
            };
            &&& (old(env).predecessor@ == old(env).current_account@ && refund == 0 ==> *final(env)
                == *old(env) && (r matches Ok(s) && s@ == crate::text::dec_str(amount as nat)))
            &&& (r matches Ok(s) ==> exists|kept: nat|
                (kept == refund || kept == 0) && s@ == #[trigger] crate::text::dec_str(
                    (amount as nat - kept) as nat,
                ))
        }),
{
    if !(env.predecessor == env.current_account) {
        return Err(
            HostAbort {
                message: <String as vstd::string::StringExecFns>::from_str(
                    "Method ft_resolve_transfer is private",
                ),
            },
        );
    }
    let unused: u128 = match &returned {
        Some(s) => {
            proof {
                assert(returned.deep_view() == Some(s@));
            }
            match crate::text::parse_u128_dec(s.as_str()) {
                Some(v) => v,
                None => 0,
            }
        },
        None => {
            proof {
                assert(returned.deep_view() == Option::<Seq<char>>::None);
            }
            0
        },
    };
    let refund = if unused < amount {
        unused
    } else {
        amount
    };
    if refund == 0 {
        let out = crate::text::u128_to_dec(amount);
        proof {
            let ghost z: nat = 0;
            assert(out@ == crate::text::dec_str((amount as nat - z) as nat));
        }
        return Ok(out);
    }
    let sender_slot = Nep141ControllerInternal::slot_account(&sender_id);
    let kept: u128;
    if sender_slot.is_exist(&env.store) {
        let t = Nep141Transfer {
            sender_id: receiver_id,
            receiver_id: sender_id,
            amount: refund,
            memo: None,
            msg: None,
            revert: true,
        };
        kept = match Nep141Controller::transfer::<TH>(env, &t) {
            Ok(inner) => match inner {
                Ok(()) => refund,
                Err(_) => 0,
            },
            Err(a) => {
                return Err(a);
            },
        };
    } else {
        let b = Nep141Burn::new(refund, receiver_id);
        kept = match Nep141Controller::burn::<BH>(env, &b) {
            Ok(inner) => match inner {
                Ok(()) => refund,
                Err(_) => 0,
            },
            Err(a) => {
                return Err(a);
            },
        };
    }
    let out = crate::text::u128_to_dec(amount - kept);
    proof {
        let ghost k: nat = kept as nat;
        assert(out@ == crate::text::dec_str((amount as nat - k) as nat));
    }
    Ok(out)
}

/// The empty store satisfies the token shapes and the supply invariant: no
/// balances, no supply.
pub proof fn lemma_ft_initial()
    ensures
        ft_bytes_wf(Seq::<(Seq<u8>, Seq<u8>)>::empty()),
        ft_supply_invariant(Seq::<(Seq<u8>, Seq<u8>)>::empty()),
{
    let sv = Seq::<(Seq<u8>, Seq<u8>)>::empty();
    assert(!contains_key(sv, ft_total_supply_key()));
    assert(ft_balance_sum(sv) == 0);
}

/// A write or removal outside the token's keys moves neither any balance nor
/// the supply, so the supply invariant survives it.
pub proof fn lemma_ft_invariant_frame_write(sv: Seq<(Seq<u8>, Seq<u8>)>, k: Seq<u8>, v: Seq<u8>)
    requires
        crate::store::entries_wf(sv),
        !is_ft_account_key(k),
        k != ft_total_supply_key(),
    ensures
        ft_balance_sum(spec_write(sv, k, v)) == ft_balance_sum(sv),
        spec_total_supply(spec_write(sv, k, v)) == spec_total_supply(sv),
        ft_bytes_wf(sv) ==> ft_bytes_wf(spec_write(sv, k, v)),
        ft_supply_invariant(sv) ==> ft_supply_invariant(spec_write(sv, k, v)),
        forall|a: Seq<char>|
            account_view_wf(a) ==> #[trigger] spec_balance_of(spec_write(sv, k, v), a)
                == spec_balance_of(sv, a),
{
    let w = |e: (Seq<u8>, Seq<u8>)| ft_weight(e);
    lemma_write(sv, k, v);
    let out = spec_write(sv, k, v);
    if contains_key(sv, k) {
        lemma_key_index(sv, k);
        let at = crate::store::key_index(sv, k);
        assert(sv[at] == (k, sv[at].1)) by {
            assert(sv[at].0 == k);
        };
        assert(w(sv[at]) == 0);
        assert(w((k, v)) == 0);
        lemma_wsum_update(sv, w, at, (k, v));
    } else {
        assert(w((k, v)) == 0);
        lemma_wsum_push(sv, w, (k, v));
    }
    assert(lookup(out, ft_total_supply_key()) == lookup(sv, ft_total_supply_key()));
    assert forall|a: Seq<char>| account_view_wf(a) implies #[trigger] spec_balance_of(out, a)
        == spec_balance_of(sv, a) by {
        assert(is_ft_account_key(ft_account_key(a)));
        assert(lookup(out, ft_account_key(a)) == lookup(sv, ft_account_key(a)));
    }
    if ft_bytes_wf(sv) {
        assert forall|a: Seq<char>| account_view_wf(a) implies match #[trigger] lookup(
            out,
            ft_account_key(a),
        ) {
            Some(b) => b.len() == 16,
            None => true,
        } by {
            assert(is_ft_account_key(ft_account_key(a)));
        }
    }
}


/// Removing an account's balance slot while it holds zero moves no balance,
/// no sum, and no supply.
pub proof fn lemma_ft_remove_zero_balance(sv: Seq<(Seq<u8>, Seq<u8>)>, a: Seq<char>)
    requires
        crate::store::entries_wf(sv),
        ft_bytes_wf(sv),
        account_view_wf(a),
        spec_balance_of(sv, a) == 0,
    ensures
        ({
            let out = crate::store::spec_remove(sv, ft_account_key(a));
            &&& ft_bytes_wf(out)
            &&& spec_balance_of(out, a) == 0
            &&& forall|b: Seq<char>|
                account_view_wf(b) && b != a ==> #[trigger] spec_balance_of(out, b)
                    == spec_balance_of(sv, b)
            &&& spec_total_supply(out) == spec_total_supply(sv)
            &&& ft_balance_sum(out) == ft_balance_sum(sv)
            &&& (ft_supply_invariant(sv) ==> ft_supply_invariant(out))
        }),
{
    let k = ft_account_key(a);
    let w = |e: (Seq<u8>, Seq<u8>)| ft_weight(e);
    crate::store::lemma_remove(sv, k);
    let out = crate::store::spec_remove(sv, k);
    if contains_key(sv, k) {
        lemma_key_index(sv, k);
        let at = crate::store::key_index(sv, k);
        assert(lookup(sv, k) == Some(sv[at].1));
        assert(le_value(sv[at].1) == 0);
        assert(w(sv[at]) == 0);
        crate::store::lemma_wsum_remove(sv, w, at);
    }
    lemma_ft_keys_distinct(a, a);
    assert(lookup(out, ft_total_supply_key()) == lookup(sv, ft_total_supply_key()));
    assert forall|b: Seq<char>| account_view_wf(b) && b != a implies #[trigger] spec_balance_of(
        out,
        b,
    ) == spec_balance_of(sv, b) by {
        lemma_ft_keys_distinct(a, b);
        assert(lookup(out, ft_account_key(b)) == lookup(sv, ft_account_key(b)));
    }
    assert forall|b: Seq<char>| account_view_wf(b) implies match #[trigger] lookup(
        out,
        ft_account_key(b),
    ) {
        Some(v) => v.len() == 16,
        None => true,
    } by {
        if b != a {
            lemma_ft_keys_distinct(a, b);
        }
    }
}

/// What the forced-unregistration burn does, from the state the inner purge
/// left (`mid`) to the hook's final state: the account's whole balance at
/// `mid` is burned — with the `ft_burn` event and its fixed memo when the
/// balance is not zero — the balance slot is deleted, and the supply drops
/// by exactly that balance.
pub open spec fn burn_on_unregister_step(mid: Env, post: Env, account_id: AccountId) -> bool {
    ft_bytes_wf(mid.store@) ==> ({
        let a = account_id@;
        let b = spec_balance_of(mid.store@, a);
        let burned = if b == 0 {
            mid.store@
        } else {
            spec_withdraw_store(mid.store@, a, b)
        };
        &&& post.store@ == crate::store::spec_remove(burned, ft_account_key(a))
        &&& spec_balance_of(post.store@, a) == 0
        &&& forall|c: Seq<char>|
            account_view_wf(c) && c != a ==> #[trigger] spec_balance_of(post.store@, c)
                == spec_balance_of(mid.store@, c)
        &&& spec_total_supply(mid.store@) >= b
        &&& spec_total_supply(post.store@) == spec_total_supply(mid.store@) - b
        &&& ft_bytes_wf(post.store@)
        &&& (ft_supply_invariant(mid.store@) ==> ft_supply_invariant(post.store@))
        &&& post.logs.deep_view() == (if b == 0 {
            mid.logs.deep_view()
        } else {
            mid.logs.deep_view().push(
                ft_burn_line(a, b, Some(("storage forced unregistration")@)),
            )
        })
        &&& post.promises == mid.promises
        &&& same_context(mid, post)
    })
}
/// Hook that burns an account's whole token balance when its storage record
/// is force-unregistered, then deletes the balance slot. The burn runs as a
/// plain step so its effect stays exact; an author who wants further advice
/// around the whole purge pairs this hook with their own.
pub struct BurnNep141OnForceUnregisterHook;

impl crate::hook::Hook<Env, crate::nep145::Nep145ForceUnregister> for BurnNep141OnForceUnregisterHook {
    fn hook<R, F: FnOnce(&mut Env) -> Result<R, HostAbort>>(
        contract: &mut Env,
        args: &crate::nep145::Nep145ForceUnregister,
        f: F,
    ) -> (r: Result<R, HostAbort>)
        ensures
            r is Ok ==> exists|x: &mut Env|
                #[trigger] call_ensures(f, (x,), r) && mut_ref_current(x) == *old(contract)
                    && burn_on_unregister_step(
                    mut_ref_future(x),
                    *final(contract),
                    args.account_id,
                ),
            r is Ok ==> lookup(final(contract).store@, ft_account_key(args.account_id@)) is None,
            r is Err ==> (exists|x: &mut Env|
                #[trigger] call_ensures(f, (x,), r) && mut_ref_current(x) == *old(contract)
                    && mut_ref_future(x) == *final(contract)) || (r matches Err(a) && (a.message@
                == ("Failed to burn tokens during forced unregistration")@ || a.message@ == (
            "stored amount has an unexpected shape")@)),
    {
        let got = f(contract);
        let ghost mid = *contract;
        proof {
            use_type_invariant(&contract.store);
            assert(crate::store::entries_wf(mid.store@));
            assert(exists|x: &mut Env|
                #[trigger] call_ensures(f, (x,), got) && mut_ref_current(x) == *old(contract)
                    && mut_ref_future(x) == mid);
        }
        if got.is_err() {
            return got;
        }
        let ghost fres = got;
        let out = match got {
            Ok(v) => v,
            Err(a) => {
                proof {
                    assert(false);
                }
                return Err(a);
            },
        };
        let balance = match Nep141Controller::balance_of(contract, &args.account_id) {
            Ok(b) => b,
            Err(a) => {
                return Err(a);
            },
        };
        let burn = Nep141Burn::new(balance, args.account_id.clone()).memo(
            <String as vstd::string::StringExecFns>::from_str("storage forced unregistration"),
        );
        match apply_burn(contract, &burn) {
            Ok(inner) => match inner {
                Ok(()) => {},
                Err(_) => {
                    return Err(
                        HostAbort {
                            message: <String as vstd::string::StringExecFns>::from_str(
                                "Failed to burn tokens during forced unregistration",
                            ),
                        },
                    );
                },
            },
            Err(a) => {
                return Err(a);
            },
        }
        let slot = Nep141ControllerInternal::slot_account(&args.account_id);
        proof {
            use_type_invariant(&contract.store);
            use_type_invariant(&args.account_id);
            crate::store::lemma_remove(contract.store@, ft_account_key(args.account_id@));
            if ft_bytes_wf(mid.store@) {
                let a = args.account_id@;
                let b = spec_balance_of(mid.store@, a);
                assert(balance as nat == b);
                assert(burn.memo.deep_view() == Some(("storage forced unregistration")@));
                lemma_pow256_16();
                lemma_amounts_bounded(mid.store@, a);
                if b == 0 {
                    lemma_ft_remove_zero_balance(mid.store@, a);
                } else {
                    let ts = spec_total_supply(mid.store@);
                    lemma_balance_write_frame(mid.store@, a, 0);
                    let m1 = spec_write_balance(mid.store@, a, 0);
                    lemma_total_write_frame(m1, (ts - b) as nat);
                    let burned = spec_write_total(m1, (ts - b) as nat);
                    assert(burned == spec_withdraw_store(mid.store@, a, b));
                    assert(contract.store@ == burned);
                    assert(spec_balance_of(burned, a) == 0);
                    lemma_ft_remove_zero_balance(burned, a);
                }
            }
        }
        slot.remove(&mut contract.store);
        proof {
            if ft_bytes_wf(mid.store@) {
                assert(burn_on_unregister_step(mid, *contract, args.account_id));
            }
            assert(exists|x: &mut Env|
                #[trigger] call_ensures(f, (x,), fres) && mut_ref_current(x) == *old(contract)
                    && burn_on_unregister_step(mut_ref_future(x), *contract, args.account_id));
        }
        Ok(out)
    }
}
} // verus!
