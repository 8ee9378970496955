//! Leaf hashing, the canonical combination of sibling hashes, and proof
//! verification against a root.
use vstd::prelude::*;

use crate::hash::{Hash32, sha256, sha256_hash, lex_le, le_bytes, push_le_u64, push_hash, hash_le, hash_eq};

verus! {

/// Domain-separation byte put in front of a leaf's inner hash, so that an
/// internal node can never be replayed as a leaf.
pub const LEAF_PREFIX: u8 = 0;

/// The hash of two siblings: the digest of the smaller followed by the larger.
pub open spec fn combine(a: Hash32, b: Hash32) -> Hash32 {
    if lex_le(a@, b@) {
        sha256(a@ + b@)
    } else {
        sha256(b@ + a@)
    }
}

/// The bytes hashed to form a claimant's inner leaf hash.
pub open spec fn leaf_preimage(claimant: Seq<u8>, amount_unlocked: u64, amount_locked: u64) -> Seq<u8> {
    claimant + le_bytes(amount_unlocked as nat, 8) + le_bytes(amount_locked as nat, 8)
}

/// The leaf committed for a claimant and its two amounts.
pub open spec fn leaf_hash(claimant: Seq<u8>, amount_unlocked: u64, amount_locked: u64) -> Hash32 {
    sha256(seq![LEAF_PREFIX] + sha256(leaf_preimage(claimant, amount_unlocked, amount_locked))@)
}

/// Folds the proof's sibling hashes, first to last, into the running hash.
pub open spec fn fold_proof(h: Hash32, proof: Seq<Hash32>) -> Hash32
    decreases proof.len(),
{
    if proof.len() == 0 {
        h
    } else {
        fold_proof(combine(h, proof[0]), proof.drop_first())
    }
}

/// Combining two siblings does not depend on which one comes first.
pub proof fn lemma_combine_symmetric(a: Hash32, b: Hash32)
    ensures
        combine(a, b) == combine(b, a),
{
    crate::hash::lemma_lex_total(a@, b@);
    if lex_le(a@, b@) && lex_le(b@, a@) {
        crate::hash::lemma_hash_view_injective(a, b);
    }
}

/// Hashes two siblings in canonical order.
pub fn hash_intermediate(a: &Hash32, b: &Hash32) -> (r: Hash32)
    ensures
        r == combine(*a, *b),
{
    let mut buf: Vec<u8> = Vec::new();
    if hash_le(a, b) {
        push_hash(&mut buf, a);
        push_hash(&mut buf, b);
    } else {
        push_hash(&mut buf, b);
        push_hash(&mut buf, a);
    }
    assert(buf@ =~= if lex_le(a@, b@) { a@ + b@ } else { b@ + a@ });
    sha256_hash(&buf)
}

/// Computes the leaf that commits to a claimant and its amounts.
pub fn hash_leaf(claimant: &Hash32, amount_unlocked: u64, amount_locked: u64) -> (r: Hash32)
    ensures
        r == leaf_hash(claimant@, amount_unlocked, amount_locked),
{
    let mut inner_bytes: Vec<u8> = Vec::new();
    push_hash(&mut inner_bytes, claimant);
    push_le_u64(&mut inner_bytes, amount_unlocked);
    push_le_u64(&mut inner_bytes, amount_locked);
    assert(inner_bytes@ =~= leaf_preimage(claimant@, amount_unlocked, amount_locked));
    let inner = sha256_hash(&inner_bytes);
    let mut outer_bytes: Vec<u8> = Vec::new();
    outer_bytes.push(LEAF_PREFIX);
    push_hash(&mut outer_bytes, &inner);
    assert(outer_bytes@ =~= seq![LEAF_PREFIX] + inner@);
    sha256_hash(&outer_bytes)
}

/// Checks that folding `proof` into `leaf` reproduces `root`.
pub fn verify(proof: &Vec<Hash32>, root: Hash32, leaf: Hash32) -> (r: bool)
    ensures
        r == (fold_proof(leaf, proof@) == root),
{
    let mut computed = leaf;
    let mut i: usize = 0;
    assert(proof@.subrange(0, proof@.len() as int) =~= proof@);
    while i < proof.len()
        invariant
            0 <= i <= proof@.len(),
            fold_proof(computed, proof@.subrange(i as int, proof@.len() as int)) == fold_proof(
                leaf,
                proof@,
            ),
        decreases proof@.len() - i,
    {
        let ghost rest = proof@.subrange(i as int, proof@.len() as int);
        assert(rest.drop_first() =~= proof@.subrange(i + 1, proof@.len() as int));
        computed = hash_intermediate(&computed, &proof[i]);
        i = i + 1;
    }
    assert(proof@.subrange(0, proof@.len() as int) =~= proof@);
    hash_eq(&computed, &root)
}

/// `256` to the power `n`.
pub open spec fn pow256(n: nat) -> nat
    decreases n,
{
    if n == 0 {
        1
    } else {
        256 * pow256((n - 1) as nat)
    }
}

proof fn lemma_le_bytes_len(v: nat, n: nat)
    ensures
        le_bytes(v, n).len() == n,
    decreases n,
{
    if n > 0 {
        lemma_le_bytes_len(v / 256, (n - 1) as nat);
    }
}

/// Two numbers below `256^n` with the same `n` little-endian bytes are equal.
proof fn lemma_le_bytes_injective(v: nat, w: nat, n: nat)
    requires
        v < pow256(n),
        w < pow256(n),
        le_bytes(v, n) == le_bytes(w, n),
    ensures
        v == w,
    decreases n,
{
    if n > 0 {
        let p = pow256((n - 1) as nat);
        let (bv, bw) = (le_bytes(v / 256, (n - 1) as nat), le_bytes(w / 256, (n - 1) as nat));
        assert(le_bytes(v, n)[0] == (v % 256) as u8);
        assert(le_bytes(w, n)[0] == (w % 256) as u8);
        assert(le_bytes(v, n).drop_first() =~= bv);
        assert(le_bytes(w, n).drop_first() =~= bw);
        assert(v / 256 < p) by (nonlinear_arith)
            requires
                v < 256 * p,
        ;
        assert(w / 256 < p) by (nonlinear_arith)
            requires
                w < 256 * p,
        ;
        lemma_le_bytes_injective(v / 256, w / 256, (n - 1) as nat);
        assert(v == 256 * (v / 256) + v % 256);
        assert(w == 256 * (w / 256) + w % 256);
    } else {
        assert(v == 0 && w == 0);
    }
}

/// A leaf's hashed bytes determine the claimant and both amounts: changing
/// any byte of the claimant or any amount changes what is hashed.
pub proof fn lemma_leaf_preimage_injective(
    claimant: Seq<u8>,
    amount_unlocked: u64,
    amount_locked: u64,
    other_claimant: Seq<u8>,
    other_unlocked: u64,
    other_locked: u64,
)
    requires
        claimant.len() == 32,
        other_claimant.len() == 32,
        leaf_preimage(claimant, amount_unlocked, amount_locked) == leaf_preimage(
            other_claimant,
            other_unlocked,
            other_locked,
        ),
    ensures
        claimant == other_claimant,
        amount_unlocked == other_unlocked,
        amount_locked == other_locked,
{
    let a = leaf_preimage(claimant, amount_unlocked, amount_locked);
    lemma_le_bytes_len(amount_unlocked as nat, 8);
    lemma_le_bytes_len(amount_locked as nat, 8);
    lemma_le_bytes_len(other_unlocked as nat, 8);
    lemma_le_bytes_len(other_locked as nat, 8);
    assert(a.subrange(0, 32) =~= claimant);
    assert(leaf_preimage(other_claimant, other_unlocked, other_locked).subrange(0, 32) =~= other_claimant);
    assert(a.subrange(32, 40) =~= le_bytes(amount_unlocked as nat, 8));
    assert(leaf_preimage(other_claimant, other_unlocked, other_locked).subrange(32, 40) =~= le_bytes(
        other_unlocked as nat,
        8,
    ));
    assert(a.subrange(40, 48) =~= le_bytes(amount_locked as nat, 8));
    assert(leaf_preimage(other_claimant, other_unlocked, other_locked).subrange(40, 48) =~= le_bytes(
        other_locked as nat,
        8,
    ));
    assert(pow256(8) == 0x1_0000_0000_0000_0000) by {
        reveal_with_fuel(pow256, 9);
    }
    lemma_le_bytes_injective(amount_unlocked as nat, other_unlocked as nat, 8);
    lemma_le_bytes_injective(amount_locked as nat, other_locked as nat, 8);
}

} // verus!
