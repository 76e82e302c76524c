//! Hierarchical addressing over the flat key-value store.
//!
//! A slot is a handle to at most one value at one byte key; the component
//! owning a slot fixes the encoding of the value it stores. Every component
//! roots its keys at a distinct one-byte tag, and derives child keys by
//! appending a field discriminant plus a length-prefixed payload. The length
//! prefix makes derivation injective: two slots derived over different
//! `(root tag, field path)` pairs have different keys as byte strings.
use vstd::prelude::*;

use crate::bytes::le_bytes;
use crate::bytes::lemma_le_bytes_injective;
use crate::bytes::lemma_le_bytes_len;
use crate::bytes::lemma_pow256_16;
use crate::store::lookup;
use crate::store::spec_remove;
use crate::store::spec_write;
use crate::store::Store;

verus! {

/// Default root tags, one per component, pairwise distinct.
#[derive(Clone, Copy, PartialEq, Eq, Structural, Debug)]
pub enum DefaultStorageKey {
    Owner,
    Pause,
    Rbac,
    Nep141,
    Nep145,
    Nep171,
    Nep177,
    Nep178,
    Nep181,
    ApprovalManager,
    Escrow,
}

/// The single byte a root tag encodes to.
pub open spec fn tag_byte(tag: DefaultStorageKey) -> u8 {
    match tag {
        DefaultStorageKey::Owner => 0,
        DefaultStorageKey::Pause => 1,
        DefaultStorageKey::Rbac => 2,
        DefaultStorageKey::Nep141 => 3,
        DefaultStorageKey::Nep145 => 4,
        DefaultStorageKey::Nep171 => 5,
        DefaultStorageKey::Nep177 => 6,
        DefaultStorageKey::Nep178 => 7,
        DefaultStorageKey::Nep181 => 8,
        DefaultStorageKey::ApprovalManager => 9,
        DefaultStorageKey::Escrow => 10,
    }
}

/// The byte encoding of one derivation step: discriminant, then the payload
/// behind a four-byte little-endian length.
pub open spec fn elem_key(tag: u8, payload: Seq<u8>) -> Seq<u8> {
    seq![tag] + le_bytes(payload.len(), 4) + payload
}

/// The byte encoding of a whole field path.
pub open spec fn elems_key(path: Seq<(u8, Seq<u8>)>) -> Seq<u8>
    decreases path.len(),
{
    if path.len() == 0 {
        Seq::empty()
    } else {
        elem_key(path.first().0, path.first().1) + elems_key(path.drop_first())
    }
}

/// The key of the slot derived from root tag `root` over field path `path`.
pub open spec fn path_key(root: u8, path: Seq<(u8, Seq<u8>)>) -> Seq<u8> {
    seq![root] + elems_key(path)
}

/// Payload lengths a four-byte length prefix can carry.
pub open spec fn path_wf(path: Seq<(u8, Seq<u8>)>) -> bool {
    forall|i: int| 0 <= i < path.len() ==> (#[trigger] path[i]).1.len() < 0x1_0000_0000
}

proof fn lemma_elems_key_snoc(path: Seq<(u8, Seq<u8>)>, tag: u8, payload: Seq<u8>)
    ensures
        elems_key(path.push((tag, payload))) =~= elems_key(path) + elem_key(tag, payload),
    decreases path.len(),
{
    let whole = path.push((tag, payload));
    if path.len() == 0 {
        assert(whole[0] == (tag, payload));
        assert(whole.drop_first() =~= Seq::<(u8, Seq<u8>)>::empty());
        assert(elems_key(whole) == elem_key(tag, payload) + elems_key(
            Seq::<(u8, Seq<u8>)>::empty(),
        ));
    } else {
        assert(whole[0] == path[0]);
        assert(whole.drop_first() =~= path.drop_first().push((tag, payload)));
        lemma_elems_key_snoc(path.drop_first(), tag, payload);
        assert(elems_key(whole) == elem_key(whole.first().0, whole.first().1) + elems_key(
            whole.drop_first(),
        ));
    }
}

/// Appending one derivation step appends its element encoding.
pub proof fn lemma_path_key_snoc(root: u8, path: Seq<(u8, Seq<u8>)>, tag: u8, payload: Seq<u8>)
    ensures
        path_key(root, path.push((tag, payload))) =~= path_key(root, path) + elem_key(
            tag,
            payload,
        ),
{
    lemma_elems_key_snoc(path, tag, payload);
}

proof fn lemma_elems_key_min_len(path: Seq<(u8, Seq<u8>)>)
    ensures
        path.len() > 0 ==> elems_key(path).len() >= 5,
{
    if path.len() > 0 {
        lemma_le_bytes_len(path.first().1.len(), 4);
    }
}

/// Field-path encoding is injective: different paths give different bytes.
proof fn lemma_elems_key_injective(p1: Seq<(u8, Seq<u8>)>, p2: Seq<(u8, Seq<u8>)>)
    requires
        path_wf(p1),
        path_wf(p2),
        elems_key(p1) == elems_key(p2),
    ensures
        p1 == p2,
    decreases p1.len(),
{
    lemma_elems_key_min_len(p1);
    lemma_elems_key_min_len(p2);
    if p1.len() == 0 {
        if p2.len() > 0 {
            assert(elems_key(p1).len() == 0);
        }
        assert(p1 =~= p2);
    } else if p2.len() == 0 {
        assert(elems_key(p2).len() == 0);
        assert(p1 =~= p2);
    } else {
        let t1 = p1.first().0;
        let a = p1.first().1;
        let t2 = p2.first().0;
        let b = p2.first().1;
        let k = elems_key(p1);
        lemma_le_bytes_len(a.len(), 4);
        lemma_le_bytes_len(b.len(), 4);
        let la = a.len() as int;
        let lb = b.len() as int;
        assert(k =~= seq![t1] + le_bytes(a.len(), 4) + a + elems_key(p1.drop_first()));
        assert(k =~= seq![t2] + le_bytes(b.len(), 4) + b + elems_key(p2.drop_first()));
        assert(t1 == t2) by {
            assert(k[0] == t1);
            assert(k[0] == t2);
        };
        assert(le_bytes(a.len(), 4) =~= k.subrange(1, 5));
        assert(le_bytes(b.len(), 4) =~= k.subrange(1, 5));
        assert(a.len() == b.len()) by {
            lemma_pow256_16();
            if a.len() != b.len() {
                lemma_le_bytes_injective(a.len(), b.len(), 4);
            }
        };
        assert(a =~= k.subrange(5, 5 + la));
        assert(b =~= k.subrange(5, 5 + lb));
        assert(elems_key(p1.drop_first()) =~= k.skip(5 + la));
        assert(elems_key(p2.drop_first()) =~= k.skip(5 + lb));
        lemma_elems_key_injective(p1.drop_first(), p2.drop_first());
        assert(a == b);
        assert(p1[0] == p2[0]) by {
            assert(p1[0] == (t1, a));
            assert(p2[0] == (t2, b));
        };
        assert(p1 =~= p2) by {
            assert(p1.len() == p2.len());
            assert(forall|i: int|
                1 <= i < p1.len() ==> #[trigger] p1[i] == p1.drop_first()[i - 1]
                    && p2[i] == p2.drop_first()[i - 1]);
        };
    }
}

/// Slot keys derived over different `(root tag, field path)` pairs are
/// distinct as byte strings, and a root tag alone never collides with a key
/// that carries a path.
pub proof fn lemma_path_key_injective(
    r1: u8,
    p1: Seq<(u8, Seq<u8>)>,
    r2: u8,
    p2: Seq<(u8, Seq<u8>)>,
)
    requires
        path_wf(p1),
        path_wf(p2),
        (r1, p1) != (r2, p2),
    ensures
        path_key(r1, p1) != path_key(r2, p2),
{
    if path_key(r1, p1) == path_key(r2, p2) {
        let k1 = path_key(r1, p1);
        let k2 = path_key(r2, p2);
        assert(k1[0] == r1);
        assert(k2[0] == r2);
        assert(elems_key(p1) =~= k1.drop_first());
        assert(elems_key(p2) =~= k2.drop_first());
        lemma_elems_key_injective(p1, p2);
    }
}

impl DefaultStorageKey {
    /// The encoded root tag byte.
    pub fn as_byte(&self) -> (b: u8)
        ensures
            b == tag_byte(*self),
    {
        match self {
            DefaultStorageKey::Owner => 0,
            DefaultStorageKey::Pause => 1,
            DefaultStorageKey::Rbac => 2,
            DefaultStorageKey::Nep141 => 3,
            DefaultStorageKey::Nep145 => 4,
            DefaultStorageKey::Nep171 => 5,
            DefaultStorageKey::Nep177 => 6,
            DefaultStorageKey::Nep178 => 7,
            DefaultStorageKey::Nep181 => 8,
            DefaultStorageKey::ApprovalManager => 9,
            DefaultStorageKey::Escrow => 10,
        }
    }
}

/// A handle to at most one value stored at a specific byte key.
pub struct Slot {
    pub key: Vec<u8>,
}

impl View for Slot {
    type V = Seq<u8>;

    open spec fn view(&self) -> Seq<u8> {
        self.key@
    }
}

impl Slot {
    /// A slot at a caller-chosen raw key.
    pub fn new(key: Vec<u8>) -> (s: Slot)
        ensures
            s@ == key@,
    {
        Slot { key }
    }

    /// The root slot of the component owning `tag`.
    pub fn root(tag: DefaultStorageKey) -> (s: Slot)
        ensures
            s@ =~= path_key(tag_byte(tag), Seq::empty()),
    {
        let mut key: Vec<u8> = Vec::new();
        key.push(tag.as_byte());
        Slot { key }
    }

    /// The child slot under field discriminant `tag` with payload `payload`.
    pub fn field(&self, tag: u8, payload: &[u8]) -> (s: Slot)
        requires
            payload@.len() < 0x1_0000_0000,
    ensures
            s@ =~= self@ + elem_key(tag, payload@),
    {
        let mut key = vstd::slice::slice_to_vec(self.key.as_slice());
        key.push(tag);
        let mut len_bytes = crate::bytes::u32_to_le_bytes(payload.len() as u32);
        key.append(&mut len_bytes);
        let mut payload_vec = vstd::slice::slice_to_vec(payload);
        key.append(&mut payload_vec);
        Slot { key }
    }

    /// The stored value, or nothing when the key is unset.
    pub fn read(&self, store: &Store) -> (r: Option<Vec<u8>>)
        ensures
            r.deep_view() == lookup(store@, self@),
    {
        store.read(self.key.as_slice())
    }

    /// Stores `value` at the key, overwriting unconditionally.
    pub fn write(&self, store: &mut Store, value: Vec<u8>)
        ensures
            final(store)@ == spec_write(old(store)@, self@, value@),
            lookup(final(store)@, self@) == Some(value@),
            forall|k2: Seq<u8>| k2 != self@ ==> #[trigger] lookup(final(store)@, k2) == lookup(
                old(store)@,
                k2,
            ),
    {
        proof {
            use_type_invariant(&*store);
            crate::store::lemma_write(store@, self@, value@);
        }
        store.write(self.key.as_slice(), value)
    }

    /// Deletes the stored value; reports whether one existed.
    pub fn remove(&self, store: &mut Store) -> (was: bool)
        ensures
            final(store)@ == spec_remove(old(store)@, self@),
            lookup(final(store)@, self@) is None,
            forall|k2: Seq<u8>| k2 != self@ ==> #[trigger] lookup(final(store)@, k2) == lookup(
                old(store)@,
                k2,
            ),
            was == (lookup(old(store)@, self@) is Some),
    {
        proof {
            use_type_invariant(&*store);
            crate::store::lemma_remove(store@, self@);
        }
        store.remove(self.key.as_slice())
    }

    /// Whether a value is stored at the key.
    pub fn is_exist(&self, store: &Store) -> (r: bool)
        ensures
            r == (lookup(store@, self@) is Some),
    {
        store.has(self.key.as_slice())
    }

    /// Stores `value` and hands back what was stored before.
    pub fn swap(&self, store: &mut Store, value: Vec<u8>) -> (prior: Option<Vec<u8>>)
        ensures
            final(store)@ == spec_write(old(store)@, self@, value@),
            lookup(final(store)@, self@) == Some(value@),
            forall|k2: Seq<u8>| k2 != self@ ==> #[trigger] lookup(final(store)@, k2) == lookup(
                old(store)@,
                k2,
            ),
            prior.deep_view() == lookup(old(store)@, self@),
    {
        let prior = self.read(store);
        self.write(store, value);
        prior
    }
}

} // verus!
