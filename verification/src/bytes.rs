//! Little-endian fixed-width integer encodings used for all values the
//! components persist in the key-value store, together with round-trip and
//! injectivity lemmas.
use vstd::prelude::*;

verus! {

/// `256^k`, the number of values a `k`-byte little-endian field can hold.
pub open spec fn pow256(k: nat) -> nat
    decreases k,
{
    if k == 0 {
        1
    } else {
        256 * pow256((k - 1) as nat)
    }
}

/// The `k`-byte little-endian encoding of `n` (low byte first).
pub open spec fn le_bytes(n: nat, k: nat) -> Seq<u8>
    decreases k,
{
    if k == 0 {
        Seq::empty()
    } else {
        seq![(n % 256) as u8] + le_bytes(n / 256, (k - 1) as nat)
    }
}

/// The number a little-endian byte string denotes.
pub open spec fn le_value(b: Seq<u8>) -> nat
    decreases b.len(),
{
    if b.len() == 0 {
        0
    } else {
        (b[0] + 256 * le_value(b.drop_first())) as nat
    }
}

pub proof fn lemma_le_bytes_len(n: nat, k: nat)
    ensures
        le_bytes(n, k).len() == k,
    decreases k,
{
    if k > 0 {
        lemma_le_bytes_len(n / 256, (k - 1) as nat);
    }
}

pub proof fn lemma_le_value_bound(b: Seq<u8>)
    ensures
        le_value(b) < pow256(b.len()),
    decreases b.len(),
{
    if b.len() > 0 {
        lemma_le_value_bound(b.drop_first());
    }
}

/// Decoding inverts encoding: a number below `256^k` survives the round trip
/// through its `k`-byte little-endian form.
pub proof fn lemma_le_round_trip(n: nat, k: nat)
    requires
        n < pow256(k),
    ensures
        le_bytes(n, k).len() == k,
        le_value(le_bytes(n, k)) == n,
    decreases k,
{
    lemma_le_bytes_len(n, k);
    if k > 0 {
        assert(n / 256 < pow256((k - 1) as nat)) by {
            assert(n < 256 * pow256((k - 1) as nat));
        };
        lemma_le_round_trip(n / 256, (k - 1) as nat);
        assert(le_bytes(n, k).drop_first() =~= le_bytes(n / 256, (k - 1) as nat));
        assert(n % 256 + 256 * (n / 256) == n) by {
            vstd::arithmetic::div_mod::lemma_fundamental_div_mod(n as int, 256);
        };
    }
}

/// Two distinct numbers below `256^k` have distinct `k`-byte encodings.
pub proof fn lemma_le_bytes_injective(a: nat, b: nat, k: nat)
    requires
        a < pow256(k),
        b < pow256(k),
        a != b,
    ensures
        le_bytes(a, k) != le_bytes(b, k),
{
    lemma_le_round_trip(a, k);
    lemma_le_round_trip(b, k);
}

pub proof fn lemma_pow256_16()
    ensures
        pow256(4) == 0x1_0000_0000,
        pow256(8) == 0x1_0000_0000_0000_0000,
        pow256(16) == 0x1_0000_0000_0000_0000_0000_0000_0000_0000,
{
    reveal_with_fuel(pow256, 17);
}

/// The 16-byte little-endian form of a 128-bit unsigned value.
pub fn u128_to_le_bytes(n: u128) -> (r: Vec<u8>)
    ensures
        r@ == le_bytes(n as nat, 16),
        r@.len() == 16,
{
    proof {
        lemma_pow256_16();
        lemma_le_round_trip(n as nat, 16);
    }
    let mut out: Vec<u8> = Vec::new();
    let mut m: u128 = n;
    let mut i: usize = 0;
    while i < 16
        invariant
            i <= 16,
            out@.len() == i,
            le_bytes(n as nat, 16) =~= out@ + le_bytes(m as nat, (16 - i) as nat),
        decreases 16 - i,
    {
        proof {
            assert(le_bytes(m as nat, (16 - i) as nat) == seq![(m as nat % 256) as u8] + le_bytes(
                m as nat / 256,
                (16 - i - 1) as nat,
            ));
        }
        out.push((m % 256) as u8);
        m = m / 256;
        i = i + 1;
    }
    proof {
        assert(le_bytes(n as nat, 16) =~= out@);
    }
    out
}

/// Reads a 128-bit unsigned value back from its 16-byte little-endian form.
pub fn u128_from_le_bytes(b: &[u8]) -> (r: u128)
    requires
        b@.len() == 16,
    ensures
        r as nat == le_value(b@),
{
    proof {
        lemma_pow256_16();
    }
    let mut acc: u128 = 0;
    let mut i: usize = 16;
    while i > 0
        invariant
            i <= 16,
            b@.len() == 16,
            acc as nat == le_value(b@.skip(i as int)),
            (acc as nat) < pow256((16 - i) as nat),
        decreases i,
    {
        proof {
            assert(b@.skip(i as int - 1).drop_first() =~= b@.skip(i as int));
            assert(le_value(b@.skip(i as int - 1)) == b@[i as int - 1] + 256 * le_value(
                b@.skip(i as int),
            ));
            assert(pow256((16 - (i - 1)) as nat) == 256 * pow256((16 - i) as nat));
            lemma_pow256_16();
            assert(pow256((16 - (i - 1)) as nat) <= pow256(16)) by {
                lemma_pow256_increases((16 - (i - 1)) as nat, 16);
            };
        }
        let byte = *vstd::slice::slice_index_get(b, i - 1);
        acc = acc * 256 + (byte as u128);
        i = i - 1;
    }
    proof {
        assert(b@.skip(0) =~= b@);
    }
    acc
}

pub proof fn lemma_pow256_increases(j: nat, k: nat)
    requires
        j <= k,
    ensures
        pow256(j) <= pow256(k),
    decreases k,
{
    if j < k {
        lemma_pow256_increases(j, (k - 1) as nat);
    }
}

/// The 4-byte little-endian form of a 32-bit unsigned value.
pub fn u32_to_le_bytes(n: u32) -> (r: Vec<u8>)
    ensures
        r@ == le_bytes(n as nat, 4),
        r@.len() == 4,
{
    proof {
        lemma_pow256_16();
        lemma_le_round_trip(n as nat, 4);
    }
    let mut out: Vec<u8> = Vec::new();
    let mut m: u32 = n;
    let mut i: usize = 0;
    while i < 4
        invariant
            i <= 4,
            out@.len() == i,
            le_bytes(n as nat, 4) =~= out@ + le_bytes(m as nat, (4 - i) as nat),
        decreases 4 - i,
    {
        proof {
            assert(le_bytes(m as nat, (4 - i) as nat) == seq![(m as nat % 256) as u8] + le_bytes(
                m as nat / 256,
                (4 - i - 1) as nat,
            ));
        }
        out.push((m % 256) as u8);
        m = m / 256;
        i = i + 1;
    }
    proof {
        assert(le_bytes(n as nat, 4) =~= out@);
    }
    out
}

/// Reads a 32-bit unsigned value back from its 4-byte little-endian form.
pub fn u32_from_le_bytes(b: &[u8]) -> (r: u32)
    requires
        b@.len() == 4,
    ensures
        r as nat == le_value(b@),
{
    proof {
        lemma_pow256_16();
    }
    let mut acc: u32 = 0;
    let mut i: usize = 4;
    while i > 0
        invariant
            i <= 4,
            b@.len() == 4,
            acc as nat == le_value(b@.skip(i as int)),
            (acc as nat) < pow256((4 - i) as nat),
        decreases i,
    {
        proof {
            assert(b@.skip(i as int - 1).drop_first() =~= b@.skip(i as int));
            assert(le_value(b@.skip(i as int - 1)) == b@[i as int - 1] + 256 * le_value(
                b@.skip(i as int),
            ));
            assert(pow256((4 - (i - 1)) as nat) == 256 * pow256((4 - i) as nat));
            lemma_pow256_16();
            assert(pow256((4 - (i - 1)) as nat) <= pow256(4)) by {
                lemma_pow256_increases((4 - (i - 1)) as nat, 4);
            };
        }
        let byte = *vstd::slice::slice_index_get(b, i - 1);
        acc = acc * 256 + (byte as u32);
        i = i - 1;
    }
    proof {
        assert(b@.skip(0) =~= b@);
    }
    acc
}

/// The 8-byte little-endian form of a 64-bit unsigned value.
pub fn u64_to_le_bytes(n: u64) -> (r: Vec<u8>)
    ensures
        r@ == le_bytes(n as nat, 8),
        r@.len() == 8,
{
    proof {
        lemma_pow256_16();
        lemma_le_round_trip(n as nat, 8);
    }
    let mut out: Vec<u8> = Vec::new();
    let mut m: u64 = n;
    let mut i: usize = 0;
    while i < 8
        invariant
            i <= 8,
            out@.len() == i,
            le_bytes(n as nat, 8) =~= out@ + le_bytes(m as nat, (8 - i) as nat),
        decreases 8 - i,
    {
        proof {
            assert(le_bytes(m as nat, (8 - i) as nat) == seq![(m as nat % 256) as u8] + le_bytes(
                m as nat / 256,
                (8 - i - 1) as nat,
            ));
        }
        out.push((m % 256) as u8);
        m = m / 256;
        i = i + 1;
    }
    proof {
        assert(le_bytes(n as nat, 8) =~= out@);
    }
    out
}

/// Reads a 64-bit unsigned value back from its 8-byte little-endian form.
pub fn u64_from_le_bytes(b: &[u8]) -> (r: u64)
    requires
        b@.len() == 8,
    ensures
        r as nat == le_value(b@),
{
    proof {
        lemma_pow256_16();
    }
    let mut acc: u64 = 0;
    let mut i: usize = 8;
    while i > 0
        invariant
            i <= 8,
            b@.len() == 8,
            acc as nat == le_value(b@.skip(i as int)),
            (acc as nat) < pow256((8 - i) as nat),
        decreases i,
    {
        proof {
            assert(b@.skip(i as int - 1).drop_first() =~= b@.skip(i as int));
            assert(le_value(b@.skip(i as int - 1)) == b@[i as int - 1] + 256 * le_value(
                b@.skip(i as int),
            ));
            assert(pow256((8 - (i - 1)) as nat) == 256 * pow256((8 - i) as nat));
            lemma_pow256_16();
            assert(pow256((8 - (i - 1)) as nat) <= pow256(8)) by {
                lemma_pow256_increases((8 - (i - 1)) as nat, 8);
            };
        }
        let byte = *vstd::slice::slice_index_get(b, i - 1);
        acc = acc * 256 + (byte as u64);
        i = i - 1;
    }
    proof {
        assert(b@.skip(0) =~= b@);
    }
    acc
}

} // verus!
