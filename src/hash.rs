//! Byte-level hashing primitives: SHA-256, the canonical byte order of two
//! hashes, and little-endian encoding of amounts.
use vstd::prelude::*;

verus! {

/// A 32-byte hash, or a 32-byte account identity.
pub type Hash32 = [u8; 32];

/// The SHA-256 digest of a byte string.
pub uninterp spec fn sha256(data: Seq<u8>) -> [u8; 32];

/// Relies on `solana_program::hash::hashv`: the SHA-256 digest of the
/// concatenation of the slices handed to it (here a single slice).
#[verifier::external_body]
pub(crate) fn sha256_hash(data: &Vec<u8>) -> (r: Hash32)
    ensures
        r == sha256(data@),
{
    solana_program::hash::hashv(&[data.as_slice()]).to_bytes()
}

/// `a` comes before `b`, or equals it, in the lexicographic order of bytes.
pub open spec fn lex_le(a: Seq<u8>, b: Seq<u8>) -> bool {
    a =~= b || exists|i: int|
        0 <= i < a.len() && i < b.len() && a[i] < b[i] && forall|j: int| 0 <= j < i ==> a[j] == b[j]
}

/// The lexicographic order on equal-length byte strings is total and antisymmetric.
pub proof fn lemma_lex_total(a: Seq<u8>, b: Seq<u8>)
    requires
        a.len() == b.len(),
    ensures
        lex_le(a, b) || lex_le(b, a),
        lex_le(a, b) && lex_le(b, a) ==> a == b,
{
    if !(a =~= b) {
        let k = choose|k: int| 0 <= k < a.len() && a[k] != b[k];
        let first = first_difference(a, b, k);
        if a[first] < b[first] {
            assert(lex_le(a, b));
        } else {
            assert(lex_le(b, a));
        }
        if lex_le(a, b) && lex_le(b, a) {
            let i = choose|i: int|
                0 <= i < a.len() && i < b.len() && a[i] < b[i] && forall|j: int|
                    0 <= j < i ==> a[j] == b[j];
            let i2 = choose|i2: int|
                0 <= i2 < b.len() && i2 < a.len() && b[i2] < a[i2] && forall|j: int|
                    0 <= j < i2 ==> b[j] == a[j];
            assert(!(i < i2) && !(i2 < i) && i == i2);
        }
    }
}

/// The smallest index at which two strings of equal length differ, given one such index.
proof fn first_difference(a: Seq<u8>, b: Seq<u8>, k: int) -> (first: int)
    requires
        a.len() == b.len(),
        0 <= k < a.len(),
        a[k] != b[k],
    ensures
        0 <= first <= k,
        a[first] != b[first],
        forall|j: int| 0 <= j < first ==> a[j] == b[j],
    decreases k,
{
    if exists|j: int| 0 <= j < k && a[j] != b[j] {
        let j = choose|j: int| 0 <= j < k && a[j] != b[j];
        first_difference(a, b, j)
    } else {
        k
    }
}

/// Compares two hashes in the lexicographic order of their bytes.
pub fn hash_le(a: &Hash32, b: &Hash32) -> (r: bool)
    ensures
        r == lex_le(a@, b@),
{
    let mut i: usize = 0;
    while i < 32 && a[i] == b[i]
        invariant
            0 <= i <= 32,
            a@.len() == 32,
            b@.len() == 32,
            forall|j: int| 0 <= j < i ==> a@[j] == b@[j],
        decreases 32 - i,
    {
        i = i + 1;
    }
    if i == 32 {
        assert(a@ =~= b@);
        true
    } else if a[i] < b[i] {
        assert(lex_le(a@, b@));
        true
    } else {
        proof {
            if lex_le(a@, b@) {
                if !(a@ =~= b@) {
                    let w = choose|w: int|
                        0 <= w < a@.len() && w < b@.len() && a@[w] < b@[w] && forall|j: int|
                            0 <= j < w ==> a@[j] == b@[j];
                    assert(w != i as int);
                } else {
                    assert(a@[i as int] == b@[i as int]);
                }
            }
        }
        false
    }
}

/// Compares two hashes byte by byte.
pub fn hash_eq(a: &Hash32, b: &Hash32) -> (r: bool)
    ensures
        r == (*a == *b),
{
    let mut i: usize = 0;
    while i < 32
        invariant
            0 <= i <= 32,
            a@.len() == 32,
            b@.len() == 32,
            forall|j: int| 0 <= j < i ==> a@[j] == b@[j],
        decreases 32 - i,
    {
        if a[i] != b[i] {
            return false;
        }
        i = i + 1;
    }
    proof {
        lemma_hash_view_injective(*a, *b);
    }
    true
}

/// Two hashes with the same bytes are the same hash.
pub proof fn lemma_hash_view_injective(a: Hash32, b: Hash32)
    ensures
        a@ =~= b@ ==> a == b,
{
    if a@ =~= b@ {
        assert forall|i: int| 0 <= i < 32 implies a[i] == b[i] by {
            assert(a@[i] == b@[i]);
        }
        assert(a =~= b);
    }
}

/// The `n` low-order bytes of `v`, least significant first.
pub open spec fn le_bytes(v: nat, n: nat) -> Seq<u8>
    decreases n,
{
    if n == 0 {
        seq![]
    } else {
        seq![(v % 256) as u8] + le_bytes(v / 256, (n - 1) as nat)
    }
}

/// Appends the 8-byte little-endian encoding of `v` to `out`.
pub fn push_le_u64(out: &mut Vec<u8>, v: u64)
    ensures
        final(out)@ == old(out)@ + le_bytes(v as nat, 8),
{
    let ghost start = out@;
    let mut x: u64 = v;
    let mut i: usize = 0;
    while i < 8
        invariant
            0 <= i <= 8,
            out@ + le_bytes(x as nat, (8 - i) as nat) == start + le_bytes(v as nat, 8),
        decreases 8 - i,
    {
        let ghost before = out@;
        proof {
            assert(le_bytes(x as nat, (8 - i) as nat) =~= seq![(x % 256) as u8] + le_bytes(
                (x / 256) as nat,
                (8 - i - 1) as nat,
            ));
        }
        out.push((x % 256) as u8);
        assert(out@ + le_bytes((x / 256) as nat, (8 - i - 1) as nat) =~= before + le_bytes(
            x as nat,
            (8 - i) as nat,
        ));
        x = x / 256;
        i = i + 1;
    }
    assert(le_bytes(x as nat, 0) =~= Seq::<u8>::empty());
    assert(out@ =~= out@ + le_bytes(x as nat, 0));
}

/// Appends the bytes of a hash to `out`.
pub fn push_hash(out: &mut Vec<u8>, h: &Hash32)
    ensures
        final(out)@ == old(out)@ + h@,
{
    let ghost start = out@;
    let mut i: usize = 0;
    while i < 32
        invariant
            0 <= i <= 32,
            h@.len() == 32,
            out@ =~= start + h@.subrange(0, i as int),
        decreases 32 - i,
    {
        out.push(h[i]);
        i = i + 1;
        assert(out@ =~= start + h@.subrange(0, i as int));
    }
    assert(h@.subrange(0, 32) =~= h@);
}

} // verus!
