//! The commitment tree: levels built bottom-up from the leaves, the root,
//! and the sibling path of each leaf.
use vstd::prelude::*;

use crate::hash::Hash32;
use crate::merkle::{combine, fold_proof, hash_intermediate, lemma_combine_symmetric};

verus! {

/// The level above `level`: each pair of neighbours combined, an unpaired
/// last node carried up unchanged.
pub open spec fn next_level(level: Seq<Hash32>) -> Seq<Hash32> {
    Seq::new(
        ((level.len() + 1) / 2) as nat,
        |k: int|
            if 2 * k + 1 < level.len() {
                combine(level[2 * k], level[2 * k + 1])
            } else {
                level[2 * k]
            },
    )
}

/// The root of the tree whose bottom level is `level` (non-empty).
pub open spec fn merkle_root_of(level: Seq<Hash32>) -> Hash32
    decreases level.len(),
{
    if level.len() <= 1 {
        level[0]
    } else {
        merkle_root_of(next_level(level))
    }
}

/// The sibling of position `i` on `level`, if it has one.
pub open spec fn sibling_part(level: Seq<Hash32>, i: int) -> Seq<Hash32> {
    let s = if i % 2 == 0 {
        i + 1
    } else {
        i - 1
    };
    if 0 <= s < level.len() {
        seq![level[s]]
    } else {
        seq![]
    }
}

/// The siblings met while climbing from position `i` of `level` to the root.
pub open spec fn proof_of(level: Seq<Hash32>, i: int) -> Seq<Hash32>
    decreases level.len(),
{
    if level.len() <= 1 {
        seq![]
    } else {
        sibling_part(level, i) + proof_of(next_level(level), i / 2)
    }
}

/// Folding the sibling path of any position reproduces the root.
pub proof fn lemma_proof_of_folds_to_root(level: Seq<Hash32>, i: int)
    requires
        0 <= i < level.len(),
    ensures
        fold_proof(level[i], proof_of(level, i)) == merkle_root_of(level),
    decreases level.len(),
{
    if level.len() > 1 {
        let up = next_level(level);
        lemma_proof_of_folds_to_root(up, i / 2);
        let rest = proof_of(up, i / 2);
        let sib = sibling_part(level, i);
        if sib.len() == 1 {
            assert((sib + rest).drop_first() =~= rest);
            if i % 2 == 1 {
                lemma_combine_symmetric(level[i - 1], level[i]);
            }
            assert(combine(level[i], sib[0]) == up[i / 2]);
        } else {
            assert(sib + rest =~= rest);
        }
    }
}

/// Computes the level above `level`.
pub fn build_next_level(level: &Vec<Hash32>) -> (r: Vec<Hash32>)
    ensures
        r@ == next_level(level@),
{
    let mut out: Vec<Hash32> = Vec::new();
    let mut i: usize = 0;
    while i < level.len()
        invariant
            i % 2 == 0 || i == level@.len(),
            i <= level@.len(),
            out@.len() == (i + 1) / 2,
            forall|k: int| 0 <= k < out@.len() ==> out@[k] == next_level(level@)[k],
        decreases level@.len() - i,
    {
        if i + 1 < level.len() {
            let h = hash_intermediate(&level[i], &level[i + 1]);
            out.push(h);
            i = i + 2;
        } else {
            out.push(level[i]);
            i = level.len();
        }
    }
    assert(out@ =~= next_level(level@));
    out
}

/// Each level of `levels` is the one above the previous; the first is the
/// bottom, the last holds the root alone, and every other has two or more nodes.
pub open spec fn is_level_chain(levels: Seq<Vec<Hash32>>) -> bool {
    &&& levels.len() >= 1
    &&& levels.last()@.len() == 1
    &&& forall|k: int| 0 <= k < levels.len() - 1 ==> #[trigger] levels[k]@.len() > 1
    &&& forall|k: int|
        #![trigger next_level(levels[k]@)]
        0 <= k < levels.len() - 1 ==> levels[k + 1]@ == next_level(levels[k]@)
}

/// Builds every level of the tree over non-empty `leaves`, bottom first.
pub fn build_levels(leaves: Vec<Hash32>) -> (levels: Vec<Vec<Hash32>>)
    requires
        leaves@.len() > 0,
    ensures
        is_level_chain(levels@),
        levels@[0]@ == leaves@,
        levels@.last()[0] == merkle_root_of(leaves@),
{
    let ghost bottom = leaves@;
    let mut levels: Vec<Vec<Hash32>> = Vec::new();
    let mut current = leaves;
    while current.len() > 1
        invariant
            current@.len() >= 1,
            merkle_root_of(current@) == merkle_root_of(bottom),
            levels@.len() == 0 ==> current@ == bottom,
            levels@.len() > 0 ==> levels@[0]@ == bottom,
            levels@.len() > 0 ==> current@ == next_level(levels@.last()@),
            forall|k: int| 0 <= k < levels@.len() ==> #[trigger] levels@[k]@.len() > 1,
            forall|k: int|
                #![trigger next_level(levels@[k]@)]
                0 <= k < levels@.len() - 1 ==> levels@[k + 1]@ == next_level(levels@[k]@),
        decreases current@.len(),
    {
        let next = build_next_level(&current);
        levels.push(current);
        current = next;
    }
    levels.push(current);
    levels
}

/// The sibling path of position `i` of the bottom level.
pub fn proof_path(levels: &Vec<Vec<Hash32>>, i: usize) -> (p: Vec<Hash32>)
    requires
        is_level_chain(levels@),
        i < levels@[0]@.len(),
    ensures
        p@ == proof_of(levels@[0]@, i as int),
{
    let mut acc: Vec<Hash32> = Vec::new();
    let mut idx: usize = i;
    let mut k: usize = 0;
    let last = levels.len() - 1;
    while k < last
        invariant
            is_level_chain(levels@),
            last == levels@.len() - 1,
            k <= last,
            idx < levels@[k as int]@.len(),
            acc@ + proof_of(levels@[k as int]@, idx as int) == proof_of(levels@[0]@, i as int),
        decreases last - k,
    {
        let level = &levels[k];
        let ghost before = acc@;
        let sib: usize = if idx % 2 == 0 {
            idx + 1
        } else {
            idx - 1
        };
        if sib < level.len() {
            acc.push(level[sib]);
        }
        assert(acc@ =~= before + sibling_part(level@, idx as int));
        assert(levels@[k + 1]@ == next_level(levels@[k as int]@));
        assert(acc@ + proof_of(levels@[k + 1]@, idx as int / 2) =~= before + proof_of(
            levels@[k as int]@,
            idx as int,
        ));
        idx = idx / 2;
        k = k + 1;
    }
    assert(acc@ + proof_of(levels@[k as int]@, idx as int) =~= acc@);
    acc
}

} // verus!
