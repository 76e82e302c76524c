//! Account identifiers: the opaque actor names of the host's trust domain.
//!
//! The host only ever hands out ASCII identifiers, and the slot algebra embeds
//! them into byte keys, so the type keeps the ASCII, non-empty shape as its
//! well-formedness condition.
use vstd::prelude::*;

use vstd::utf8::is_ascii_chars;

verus! {

/// An account identifier: a non-empty ASCII string.
#[derive(Debug)]
pub struct AccountId {
    id: String,
}

impl View for AccountId {
    type V = Seq<char>;

    closed spec fn view(&self) -> Seq<char> {
        self.id@
    }
}

/// The byte string an ASCII character sequence embeds to, one byte per
/// character.
pub open spec fn account_bytes(a: Seq<char>) -> Seq<u8> {
    Seq::new(a.len(), |i: int| a[i] as u8)
}

/// Distinct well-formed accounts embed to distinct byte strings.
pub proof fn lemma_account_bytes_injective(a: Seq<char>, b: Seq<char>)
    requires
        is_ascii_chars(a),
        is_ascii_chars(b),
        a != b,
    ensures
        account_bytes(a) != account_bytes(b),
{
    if account_bytes(a) == account_bytes(b) {
        assert(a.len() == b.len()) by {
            assert(account_bytes(a).len() == a.len());
            assert(account_bytes(b).len() == b.len());
        };
        assert forall|i: int| 0 <= i < a.len() implies a[i] == b[i] by {
            assert(account_bytes(a)[i] == account_bytes(b)[i]);
            assert(a[i] as u8 == b[i] as u8);
            assert('\0' <= a[i] <= '\u{7f}');
            assert('\0' <= b[i] <= '\u{7f}');
            let ca = a[i] as u32;
            let cb = b[i] as u32;
            assert(ca <= 0x7f && cb <= 0x7f);
            assert(ca as u8 == cb as u8 ==> ca == cb) by (bit_vector)
                requires
                    ca <= 0x7f && cb <= 0x7f,
            ;
        }
        assert(a =~= b);
    }
}

impl AccountId {
    /// Well-formedness: non-empty ASCII of at most 64 characters, the shape
    /// the host guarantees for every identifier it hands out.
    #[verifier::type_invariant]
    pub open spec fn wf(&self) -> bool {
        is_ascii_chars(self@) && 0 < self@.len() <= 64
    }

    /// Wraps a host-validated identifier; rejects empty, over-long or
    /// non-ASCII text.
    pub fn new(id: String) -> (r: Option<AccountId>)
        ensures
            match r {
                Some(a) => a@ == id@,
                None => !(is_ascii_chars(id@) && 0 < id@.len() <= 64),
            },
    {
        let n = id.as_str().unicode_len();
        if id.is_ascii() && n > 0 && n <= 64 {
            Some(AccountId { id })
        } else {
            None
        }
    }

    /// The identifier text.
    pub fn as_str(&self) -> (r: &str)
        ensures
            r@ == self@,
    {
        self.id.as_str()
    }

    /// The bytes the identifier contributes to a storage key.
    pub fn key_bytes(&self) -> (r: Vec<u8>)
        ensures
            r@ == account_bytes(self@),
            r@.len() == self@.len(),
    {
        proof {
            use_type_invariant(&*self);
        }
        broadcast use vstd::string::is_ascii_spec_bytes;

        let s = self.id.as_str();
        proof {
            assert(vstd::string::is_ascii(s));
        }
        let b = s.as_bytes();
        let out = vstd::slice::slice_to_vec(b);
        proof {
            assert(b@ == vstd::string::StringSliceAdditionalSpecFns::spec_bytes(s));
            assert(out@ =~= account_bytes(self@));
        }
        out
    }
}

impl Clone for AccountId {
    fn clone(&self) -> (r: Self)
        ensures
            r == *self,
    {
        proof {
            use_type_invariant(&*self);
        }
        let r = AccountId { id: self.id.clone() };
        proof {
            assert(r.id == self.id);
        }
        r
    }
}

impl PartialEq for AccountId {
    fn eq(&self, other: &AccountId) -> (r: bool) {
        self.id == other.id
    }
}

impl vstd::std_specs::cmp::PartialEqSpecImpl for AccountId {
    open spec fn obeys_eq_spec() -> bool {
        true
    }

    open spec fn eq_spec(&self, other: &AccountId) -> bool {
        self@ == other@
    }
}

} // verus!
