//! The flat, byte-addressed key-value store that backs every component.
//!
//! The store is a sequence of entries with pairwise-distinct keys. Its view is
//! the sequence of `(key bytes, value bytes)` pairs; `lookup` gives the
//! map-like reading, and the entry sequence itself supports summing over
//! entries, which the fungible-token supply invariant needs.
use vstd::prelude::*;

use vstd::pervasive::VecAdditionalExecFns;

verus! {

/// One persisted binding of a byte key to byte contents.
pub struct StoreEntry {
    pub key: Vec<u8>,
    pub value: Vec<u8>,
}

impl View for StoreEntry {
    type V = (Seq<u8>, Seq<u8>);

    open spec fn view(&self) -> (Seq<u8>, Seq<u8>) {
        (self.key@, self.value@)
    }
}

impl DeepView for StoreEntry {
    type V = (Seq<u8>, Seq<u8>);

    open spec fn deep_view(&self) -> (Seq<u8>, Seq<u8>) {
        (self.key@, self.value@)
    }
}

/// The mathematical shape of a store: entry sequence with distinct keys.
pub open spec fn entries_wf(sv: Seq<(Seq<u8>, Seq<u8>)>) -> bool {
    forall|i: int, j: int| 0 <= i < j < sv.len() ==> (#[trigger] sv[i]).0 != (#[trigger] sv[j]).0
}

pub open spec fn contains_key(sv: Seq<(Seq<u8>, Seq<u8>)>, k: Seq<u8>) -> bool {
    exists|i: int| 0 <= i < sv.len() && (#[trigger] sv[i]).0 == k
}

pub open spec fn key_index(sv: Seq<(Seq<u8>, Seq<u8>)>, k: Seq<u8>) -> int {
    choose|i: int| 0 <= i < sv.len() && (#[trigger] sv[i]).0 == k
}

/// The contents stored under `k`, if any.
pub open spec fn lookup(sv: Seq<(Seq<u8>, Seq<u8>)>, k: Seq<u8>) -> Option<Seq<u8>> {
    if contains_key(sv, k) {
        Some(sv[key_index(sv, k)].1)
    } else {
        None
    }
}

/// The entry sequence after `k` is bound to `v`: the old binding is replaced
/// in place, or a fresh entry is appended.
pub open spec fn spec_write(sv: Seq<(Seq<u8>, Seq<u8>)>, k: Seq<u8>, v: Seq<u8>) -> Seq<
    (Seq<u8>, Seq<u8>),
> {
    if contains_key(sv, k) {
        sv.update(key_index(sv, k), (k, v))
    } else {
        sv.push((k, v))
    }
}

/// The entry sequence after the binding of `k`, if any, is deleted.
pub open spec fn spec_remove(sv: Seq<(Seq<u8>, Seq<u8>)>, k: Seq<u8>) -> Seq<(Seq<u8>, Seq<u8>)> {
    if contains_key(sv, k) {
        sv.remove(key_index(sv, k))
    } else {
        sv
    }
}

/// Under distinct keys, `key_index` is the one position holding `k`.
pub proof fn lemma_key_index(sv: Seq<(Seq<u8>, Seq<u8>)>, k: Seq<u8>)
    requires
        entries_wf(sv),
        contains_key(sv, k),
    ensures
        0 <= key_index(sv, k) < sv.len(),
        sv[key_index(sv, k)].0 == k,
        forall|i: int| 0 <= i < sv.len() && (#[trigger] sv[i]).0 == k ==> i == key_index(sv, k),
{
    let at = key_index(sv, k);
    assert forall|i: int| 0 <= i < sv.len() && (#[trigger] sv[i]).0 == k implies i == at by {
        if i < at {
            assert(sv[i].0 != sv[at].0);
        } else if at < i {
            assert(sv[at].0 != sv[i].0);
        }
    }
}

/// Writing keeps keys distinct and behaves as a map update on `lookup`.
pub proof fn lemma_write(sv: Seq<(Seq<u8>, Seq<u8>)>, k: Seq<u8>, v: Seq<u8>)
    requires
        entries_wf(sv),
    ensures
        entries_wf(spec_write(sv, k, v)),
        lookup(spec_write(sv, k, v), k) == Some(v),
        forall|k2: Seq<u8>| k2 != k ==> #[trigger] lookup(spec_write(sv, k, v), k2) == lookup(
            sv,
            k2,
        ),
{
    let out = spec_write(sv, k, v);
    if contains_key(sv, k) {
        lemma_key_index(sv, k);
        let at = key_index(sv, k);
        assert(entries_wf(out)) by {
            assert(forall|i: int| 0 <= i < out.len() && i != at ==> out[i] == sv[i]);
        };
        assert(contains_key(out, k)) by {
            assert(out[at].0 == k);
        };
        lemma_key_index(out, k);
        assert(key_index(out, k) == at);
        assert forall|k2: Seq<u8>| k2 != k implies #[trigger] lookup(out, k2) == lookup(sv, k2) by {
            lemma_lookup_same_entries(sv, out, k2, at, k);
        }
    } else {
        assert(forall|i: int| 0 <= i < sv.len() ==> (#[trigger] sv[i]).0 != k);
        assert(entries_wf(out)) by {
            assert(forall|i: int| 0 <= i < sv.len() ==> out[i] == sv[i]);
            assert(out[sv.len() as int] == (k, v));
        };
        assert(contains_key(out, k)) by {
            assert(out[sv.len() as int].0 == k);
        };
        lemma_key_index(out, k);
        assert forall|k2: Seq<u8>| k2 != k implies #[trigger] lookup(out, k2) == lookup(sv, k2) by {
            lemma_lookup_same_entries(sv, out, k2, sv.len() as int, k);
        }
    }
}

/// If `big` differs from `small` only by the entry at `at` (replaced or
/// appended), whose key is `k`, then lookups of other keys agree.
proof fn lemma_lookup_same_entries(
    small: Seq<(Seq<u8>, Seq<u8>)>,
    big: Seq<(Seq<u8>, Seq<u8>)>,
    k2: Seq<u8>,
    at: int,
    k: Seq<u8>,
)
    requires
        entries_wf(small),
        entries_wf(big),
        small.len() <= big.len() <= small.len() + 1,
        0 <= at < big.len(),
        big[at].0 == k,
        forall|i: int| 0 <= i < big.len() && i != at ==> i < small.len() && big[i] == small[i],
        forall|i: int| 0 <= i < small.len() && i != at ==> #[trigger] small[i] == big[i],
        at < small.len() ==> small[at].0 == k,
        k2 != k,
    ensures
        lookup(big, k2) == lookup(small, k2),
{
    if contains_key(big, k2) {
        lemma_key_index(big, k2);
        let i = key_index(big, k2);
        assert(i != at);
        assert(small[i].0 == k2);
        assert(contains_key(small, k2));
        lemma_key_index(small, k2);
        assert(key_index(small, k2) == i);
    } else if contains_key(small, k2) {
        lemma_key_index(small, k2);
        let i = key_index(small, k2);
        assert(i != at);
        assert(big[i].0 == k2);
        assert(contains_key(big, k2));
    }
}

/// Removal keeps keys distinct, unbinds `k`, and leaves other keys bound as
/// they were.
pub proof fn lemma_remove(sv: Seq<(Seq<u8>, Seq<u8>)>, k: Seq<u8>)
    requires
        entries_wf(sv),
    ensures
        entries_wf(spec_remove(sv, k)),
        lookup(spec_remove(sv, k), k) is None,
        forall|k2: Seq<u8>| k2 != k ==> #[trigger] lookup(spec_remove(sv, k), k2) == lookup(
            sv,
            k2,
        ),
{
    if contains_key(sv, k) {
        lemma_key_index(sv, k);
        let at = key_index(sv, k);
        let out = sv.remove(at);
        assert(forall|i: int| 0 <= i < at ==> #[trigger] out[i] == sv[i]);
        assert(forall|i: int| at <= i < out.len() ==> #[trigger] out[i] == sv[i + 1]);
        assert(entries_wf(out)) by {
            assert forall|i: int, j: int| 0 <= i < j < out.len() implies (#[trigger] out[i]).0 != (
            #[trigger] out[j]).0 by {
                let io = if i < at {
                    i
                } else {
                    i + 1
                };
                let jo = if j < at {
                    j
                } else {
                    j + 1
                };
                assert(sv[io].0 != sv[jo].0);
            }
        };
        assert(!contains_key(out, k)) by {
            assert forall|i: int| 0 <= i < out.len() implies (#[trigger] out[i]).0 != k by {
                let io = if i < at {
                    i
                } else {
                    i + 1
                };
                assert(sv[io].0 == out[i].0);
            }
        };
        assert forall|k2: Seq<u8>| k2 != k implies #[trigger] lookup(out, k2) == lookup(sv, k2) by {
            if contains_key(sv, k2) {
                lemma_key_index(sv, k2);
                let i = key_index(sv, k2);
                assert(i != at);
                let io = if i < at {
                    i
                } else {
                    i - 1
                };
                assert(out[io].0 == k2);
                assert(contains_key(out, k2));
                lemma_key_index(out, k2);
                assert(out[key_index(out, k2)].1 == sv[i].1) by {
                    let j = key_index(out, k2);
                    let jo = if j < at {
                        j
                    } else {
                        j + 1
                    };
                    assert(out[j] == sv[jo]);
                    assert(sv[jo].0 == k2);
                    assert(jo == i);
                };
            } else {
                assert(!contains_key(out, k2)) by {
                    assert forall|i: int| 0 <= i < out.len() implies (#[trigger] out[i]).0
                        != k2 by {
                        let io = if i < at {
                            i
                        } else {
                            i + 1
                        };
                        assert(out[i] == sv[io]);
                    }
                };
            }
        }
    }
}

/// The backing key-value store: a list of entries with distinct keys.
pub struct Store {
    entries: Vec<StoreEntry>,
}

impl View for Store {
    type V = Seq<(Seq<u8>, Seq<u8>)>;

    closed spec fn view(&self) -> Seq<(Seq<u8>, Seq<u8>)> {
        self.entries.deep_view()
    }
}

/// Byte-string comparison.
pub fn bytes_eq(a: &[u8], b: &[u8]) -> (r: bool)
    ensures
        r == (a@ == b@),
{
    if a.len() != b.len() {
        proof {
            assert(a@ != b@) by {
                assert(a@.len() != b@.len());
            };
        }
        return false;
    }
    let mut i: usize = 0;
    while i < a.len()
        invariant
            i <= a.len(),
            a@.len() == b@.len(),
            forall|j: int| 0 <= j < i ==> a@[j] == b@[j],
        decreases a.len() - i,
    {
        if a[i] != b[i] {
            return false;
        }
        i = i + 1;
    }
    proof {
        assert(a@ =~= b@);
    }
    true
}

impl Store {
    /// Every reachable store keeps its keys pairwise distinct.
    #[verifier::type_invariant]
    pub open spec fn wf(&self) -> bool {
        entries_wf(self@)
    }

    /// An empty store.
    pub fn new() -> (s: Store)
        ensures
            s@ =~= Seq::<(Seq<u8>, Seq<u8>)>::empty(),
    {
        Store { entries: Vec::new() }
    }

    /// Position of the entry holding `key`, if any.
    fn find(&self, key: &[u8]) -> (r: Option<usize>)
        ensures
            match r {
                Some(i) => contains_key(self@, key@) && i == key_index(self@, key@) && i
                    < self@.len(),
                None => !contains_key(self@, key@),
            },
    {
        proof {
            use_type_invariant(&*self);
        }
        let n = self.entries.len();
        let mut i: usize = 0;
        while i < n
            invariant
                self.wf(),
                n == self@.len(),
                i <= n,
                forall|j: int| 0 <= j < i ==> (#[trigger] self@[j]).0 != key@,
            decreases n - i,
        {
            if bytes_eq(self.entries[i].key.as_slice(), key) {
                proof {
                    assert(self@[i as int].0 == key@);
                    lemma_key_index(self@, key@);
                }
                return Some(i);
            }
            i = i + 1;
        }
        None
    }

    /// The contents under `key`, or nothing when the key is unbound.
    pub fn read(&self, key: &[u8]) -> (r: Option<Vec<u8>>)
        ensures
            r.deep_view() == lookup(self@, key@),
    {
        match self.find(key) {
            Some(i) => {
                let v = vstd::slice::slice_to_vec(self.entries[i].value.as_slice());
                Some(v)
            },
            None => None,
        }
    }

    /// Whether `key` is bound.
    pub fn has(&self, key: &[u8]) -> (r: bool)
        ensures
            r == contains_key(self@, key@),
    {
        self.find(key).is_some()
    }

    /// Binds `key` to `value`, replacing any previous contents.
    pub fn write(&mut self, key: &[u8], value: Vec<u8>)
        ensures
            final(self)@ == spec_write(old(self)@, key@, value@),
    {
        proof {
            use_type_invariant(&*self);
            lemma_write(self@, key@, value@);
        }
        let found = self.find(key);
        let mut entries: Vec<StoreEntry> = Vec::new();
        core::mem::swap(&mut entries, &mut self.entries);
        let entry = StoreEntry { key: vstd::slice::slice_to_vec(key), value };
        match found {
            Some(i) => {
                entries.set(i, entry);
            },
            None => {
                entries.push(entry);
            },
        }
        proof {
            assert(entries.deep_view() =~= spec_write(old(self)@, key@, value@));
        }
        self.entries = entries;
    }

    /// Deletes the binding of `key`; reports whether one existed.
    pub fn remove(&mut self, key: &[u8]) -> (was: bool)
        ensures
            final(self)@ == spec_remove(old(self)@, key@),
            was == contains_key(old(self)@, key@),
    {
        proof {
            use_type_invariant(&*self);
            lemma_remove(self@, key@);
        }
        let found = self.find(key);
        match found {
            Some(i) => {
                let mut entries: Vec<StoreEntry> = Vec::new();
                core::mem::swap(&mut entries, &mut self.entries);
                entries.remove(i);
                proof {
                    assert(entries.deep_view() =~= spec_remove(old(self)@, key@));
                }
                self.entries = entries;
                true
            },
            None => false,
        }
    }
}

/// Sum of a per-entry integer weight over the entry sequence. The
/// fungible-token component sums decoded balances this way.
pub open spec fn wsum(sv: Seq<(Seq<u8>, Seq<u8>)>, w: spec_fn((Seq<u8>, Seq<u8>)) -> int) -> int
    decreases sv.len(),
{
    if sv.len() == 0 {
        0
    } else {
        w(sv[0]) + wsum(sv.drop_first(), w)
    }
}

pub proof fn lemma_wsum_push(
    sv: Seq<(Seq<u8>, Seq<u8>)>,
    w: spec_fn((Seq<u8>, Seq<u8>)) -> int,
    e: (Seq<u8>, Seq<u8>),
)
    ensures
        wsum(sv.push(e), w) == wsum(sv, w) + w(e),
    decreases sv.len(),
{
    if sv.len() == 0 {
        assert(sv.push(e).drop_first() =~= Seq::empty());
        assert(sv.push(e)[0] == e);
        assert(wsum(sv.push(e), w) == w(e) + wsum(Seq::empty(), w));
    } else {
        assert(sv.push(e).drop_first() =~= sv.drop_first().push(e));
        assert(sv.push(e)[0] == sv[0]);
        lemma_wsum_push(sv.drop_first(), w, e);
        assert(wsum(sv.push(e), w) == w(sv[0]) + wsum(sv.drop_first().push(e), w));
    }
}

pub proof fn lemma_wsum_update(
    sv: Seq<(Seq<u8>, Seq<u8>)>,
    w: spec_fn((Seq<u8>, Seq<u8>)) -> int,
    i: int,
    e: (Seq<u8>, Seq<u8>),
)
    requires
        0 <= i < sv.len(),
    ensures
        wsum(sv.update(i, e), w) == wsum(sv, w) - w(sv[i]) + w(e),
    decreases sv.len(),
{
    if i == 0 {
        assert(sv.update(0, e).drop_first() =~= sv.drop_first());
    } else {
        assert(sv.update(i, e).drop_first() =~= sv.drop_first().update(i - 1, e));
        lemma_wsum_update(sv.drop_first(), w, i - 1, e);
    }
}

pub proof fn lemma_wsum_remove(
    sv: Seq<(Seq<u8>, Seq<u8>)>,
    w: spec_fn((Seq<u8>, Seq<u8>)) -> int,
    i: int,
)
    requires
        0 <= i < sv.len(),
    ensures
        wsum(sv.remove(i), w) == wsum(sv, w) - w(sv[i]),
    decreases sv.len(),
{
    if i == 0 {
        assert(sv.remove(0) =~= sv.drop_first());
    } else {
        assert(sv.remove(i).drop_first() =~= sv.drop_first().remove(i - 1));
        lemma_wsum_remove(sv.drop_first(), w, i - 1);
    }
}

/// Two weights that agree on every entry of `sv` give the same sum.
pub proof fn lemma_wsum_congruence(
    sv: Seq<(Seq<u8>, Seq<u8>)>,
    w1: spec_fn((Seq<u8>, Seq<u8>)) -> int,
    w2: spec_fn((Seq<u8>, Seq<u8>)) -> int,
)
    requires
        forall|i: int| 0 <= i < sv.len() ==> w1(#[trigger] sv[i]) == w2(sv[i]),
    ensures
        wsum(sv, w1) == wsum(sv, w2),
    decreases sv.len(),
{
    if sv.len() > 0 {
        assert(forall|i: int|
            0 <= i < sv.drop_first().len() ==> w1(#[trigger] sv.drop_first()[i]) == w2(
                sv.drop_first()[i],
            ));
        lemma_wsum_congruence(sv.drop_first(), w1, w2);
    }
}


/// The contents `k` is bound to after the pairs are written in order: the
/// value of the last pair carrying `k`.
pub open spec fn last_bound(pairs: Seq<(Seq<u8>, Seq<u8>)>, k: Seq<u8>) -> Option<Seq<u8>>
    decreases pairs.len(),
{
    if pairs.len() == 0 {
        None
    } else if pairs.last().0 == k {
        Some(pairs.last().1)
    } else {
        last_bound(pairs.drop_last(), k)
    }
}

impl Store {
    /// The entries as plain pairs, for the host glue that persists the store
    /// between calls.
    pub fn export(&self) -> (r: Vec<(Vec<u8>, Vec<u8>)>)
        ensures
            r.deep_view() == self@,
    {
        proof {
            use_type_invariant(&*self);
        }
        let n = self.entries.len();
        let mut out: Vec<(Vec<u8>, Vec<u8>)> = Vec::new();
        let mut i: usize = 0;
        while i < n
            invariant
                n == self@.len(),
                i <= n,
                out.deep_view() =~= self@.take(i as int),
            decreases n - i,
        {
            let ghost prev = out.deep_view();
            let key = vstd::slice::slice_to_vec(self.entries[i].key.as_slice());
            let value = vstd::slice::slice_to_vec(self.entries[i].value.as_slice());
            out.push((key, value));
            proof {
                assert(out.deep_view() =~= prev.push((key@, value@))) by {
                    assert(out@.last().deep_view() == (key@, value@));
                    assert(forall|j: int|
                        0 <= j < prev.len() ==> #[trigger] out.deep_view()[j] == prev[j]);
                };
                assert(self@[i as int] == (key@, value@)) by {
                    assert(self@[i as int] == self.entries@[i as int].deep_view());
                };
                assert(out.deep_view() =~= self@.take(i + 1));
            }
            i = i + 1;
        }
        proof {
            assert(self@.take(n as int) =~= self@);
        }
        out
    }

    /// Rebuilds a store from persisted pairs, writing them in order: each key
    /// ends up bound to the value of its last pair.
    pub fn import(pairs: Vec<(Vec<u8>, Vec<u8>)>) -> (s: Store)
        ensures
            forall|k: Seq<u8>| #[trigger] lookup(s@, k) == last_bound(pairs.deep_view(), k),
    {
        let mut store = Store::new();
        let n = pairs.len();
        proof {
            assert forall|k: Seq<u8>| #[trigger] lookup(store@, k) == last_bound(
                pairs.deep_view().take(0),
                k,
            ) by {
                assert(!contains_key(store@, k));
                assert(pairs.deep_view().take(0).len() == 0);
            }
        }
        let mut i: usize = 0;
        while i < n
            invariant
                n == pairs.deep_view().len(),
                i <= n,
                forall|k: Seq<u8>| #[trigger] lookup(store@, k) == last_bound(
                    pairs.deep_view().take(i as int),
                    k,
                ),
            decreases n - i,
        {
            let ghost prev = store@;
            let key = vstd::slice::slice_to_vec(pairs[i].0.as_slice());
            let value = vstd::slice::slice_to_vec(pairs[i].1.as_slice());
            proof {
                use_type_invariant(&store);
                lemma_write(store@, key@, value@);
            }
            store.write(key.as_slice(), value);
            proof {
                let pv = pairs.deep_view();
                assert(pv[i as int] == pairs@[i as int].deep_view());
                assert(pv[i as int].0 == key@ && pv[i as int].1 == value@);
                assert(pv.take(i + 1).drop_last() =~= pv.take(i as int));
                assert(pv.take(i + 1).last() == pv[i as int]);
                assert forall|k: Seq<u8>| #[trigger] lookup(store@, k) == last_bound(
                    pv.take(i + 1),
                    k,
                ) by {
                    if k == key@ {
                        assert(lookup(store@, k) == Some(value@));
                    } else {
                        assert(lookup(store@, k) == lookup(prev, k));
                    }
                }
            }
            i = i + 1;
        }
        proof {
            assert(pairs.deep_view().take(n as int) =~= pairs.deep_view());
        }
        store
    }
}

} // verus!
