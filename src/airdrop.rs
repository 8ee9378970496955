//! Recipient allocations and the airdrop tree built over them.
use vstd::prelude::*;

use crate::csv::{aggregate_entries, csv_entries, parse_csv, recipients_of, sums_fit, CsvError};
use crate::hash::Hash32;
use crate::merkle::{fold_proof, hash_leaf, leaf_hash};
use crate::tree::{build_levels, lemma_proof_of_folds_to_root, merkle_root_of, proof_of, proof_path};

verus! {

/// A 32-byte account identity.
pub type Pubkey = [u8; 32];

/// One recipient: its identity, what it receives in each reward category, and,
/// once the tree is built, the sibling path of its leaf.
#[derive(Debug)]
pub struct TreeNode {
    pub claimant: Pubkey,
    pub total_unlocked_staker: u64,
    pub total_locked_staker: u64,
    pub total_unlocked_searcher: u64,
    pub total_locked_searcher: u64,
    pub total_unlocked_validator: u64,
    pub total_locked_validator: u64,
    pub proof: Option<Vec<Hash32>>,
}

/// Why a tree could not be built.
#[derive(Debug, PartialEq, Eq, Structural, Clone, Copy)]
pub enum MerkleTreeError {
    /// There is no recipient to commit to.
    EmptyTree,
    /// The sum of all amounts does not fit in 64 bits.
    ClaimTotalOverflow,
    /// The recipient list could not be read.
    Csv(CsvError),
}

impl TreeNode {
    /// The unlocked amount over all categories.
    pub open spec fn unlocked_total(&self) -> int {
        self.total_unlocked_staker + self.total_unlocked_searcher + self.total_unlocked_validator
    }

    /// The locked amount over all categories.
    pub open spec fn locked_total(&self) -> int {
        self.total_locked_staker + self.total_locked_searcher + self.total_locked_validator
    }

    /// Everything this recipient may ever receive.
    pub open spec fn claim_total(&self) -> int {
        self.unlocked_total() + self.locked_total()
    }

    /// Both totals fit in 64 bits.
    pub open spec fn amounts_fit(&self) -> bool {
        self.unlocked_total() <= u64::MAX && self.locked_total() <= u64::MAX
    }

    /// The leaf that commits to this recipient.
    pub open spec fn leaf(&self) -> Hash32 {
        leaf_hash(self.claimant@, self.unlocked_total() as u64, self.locked_total() as u64)
    }

    /// The same recipient and amounts, whatever the proofs.
    pub open spec fn same_allocation(&self, other: &TreeNode) -> bool {
        &&& self.claimant == other.claimant
        &&& self.total_unlocked_staker == other.total_unlocked_staker
        &&& self.total_locked_staker == other.total_locked_staker
        &&& self.total_unlocked_searcher == other.total_unlocked_searcher
        &&& self.total_locked_searcher == other.total_locked_searcher
        &&& self.total_unlocked_validator == other.total_unlocked_validator
        &&& self.total_locked_validator == other.total_locked_validator
    }

    /// The proof is present and holds exactly `p`.
    pub open spec fn has_proof(&self, p: Seq<Hash32>) -> bool {
        self.proof is Some && self.proof->Some_0@ == p
    }

    /// The unlocked amount summed over the categories.
    pub fn amount_unlocked(&self) -> (r: u64)
        requires
            self.unlocked_total() <= u64::MAX,
        ensures
            r == self.unlocked_total(),
    {
        self.total_unlocked_staker + self.total_unlocked_searcher + self.total_unlocked_validator
    }

    /// The locked amount summed over the categories.
    pub fn amount_locked(&self) -> (r: u64)
        requires
            self.locked_total() <= u64::MAX,
        ensures
            r == self.locked_total(),
    {
        self.total_locked_staker + self.total_locked_searcher + self.total_locked_validator
    }

    /// The leaf hash of this recipient.
    pub fn hash(&self) -> (r: Hash32)
        requires
            self.amounts_fit(),
        ensures
            r == self.leaf(),
    {
        hash_leaf(&self.claimant, self.amount_unlocked(), self.amount_locked())
    }
}

/// `r` is what building a tree over `nodes` gives: an error for an empty list
/// or one whose total does not fit in 64 bits, else a well-formed tree over
/// the same allocations in the same order.
pub open spec fn built_from(nodes: Seq<TreeNode>, r: Result<AirdropMerkleTree, MerkleTreeError>) -> bool {
    &&& nodes.len() == 0 <==> r == Err::<AirdropMerkleTree, MerkleTreeError>(MerkleTreeError::EmptyTree)
    &&& r == Err::<AirdropMerkleTree, MerkleTreeError>(MerkleTreeError::ClaimTotalOverflow) <==> (nodes.len() > 0
        && total_claim(nodes) > u64::MAX)
    &&& r is Err ==> r == Err::<AirdropMerkleTree, MerkleTreeError>(MerkleTreeError::EmptyTree) || r == Err::<
        AirdropMerkleTree,
        MerkleTreeError,
    >(MerkleTreeError::ClaimTotalOverflow)
    &&& r matches Ok(t) ==> {
        &&& t.wf()
        &&& t.tree_nodes@.len() == nodes.len()
        &&& forall|i: int| 0 <= i < nodes.len() ==> #[trigger] t.tree_nodes@[i].same_allocation(&nodes[i])
    }
}

/// The leaves of a list of recipients, in order.
pub open spec fn leaves_of(nodes: Seq<TreeNode>) -> Seq<Hash32> {
    Seq::new(nodes.len(), |i: int| nodes[i].leaf())
}

/// The sum of what all recipients may receive.
pub open spec fn total_claim(nodes: Seq<TreeNode>) -> int
    decreases nodes.len(),
{
    if nodes.len() == 0 {
        0
    } else {
        total_claim(nodes.drop_last()) + nodes.last().claim_total()
    }
}

/// No list claims a negative total.
proof fn lemma_total_claim_nonneg(nodes: Seq<TreeNode>)
    ensures
        total_claim(nodes) >= 0,
    decreases nodes.len(),
{
    if nodes.len() > 0 {
        lemma_total_claim_nonneg(nodes.drop_last());
    }
}

/// A prefix never claims more than the whole list, and neither does one recipient.
pub proof fn lemma_total_claim_bounds(nodes: Seq<TreeNode>, i: int)
    requires
        0 <= i <= nodes.len(),
    ensures
        0 <= total_claim(nodes.subrange(0, i)) <= total_claim(nodes),
        i < nodes.len() ==> nodes[i].claim_total() <= total_claim(nodes),
    decreases nodes.len(),
{
    lemma_total_claim_nonneg(nodes.subrange(0, i));
    if i < nodes.len() {
        let init = nodes.drop_last();
        lemma_total_claim_nonneg(init);
        if i < init.len() {
            lemma_total_claim_bounds(init, i);
            assert(init.subrange(0, i) =~= nodes.subrange(0, i));
            assert(init[i] == nodes[i]);
        } else {
            assert(nodes.subrange(0, i) =~= init);
        }
    } else {
        assert(nodes.subrange(0, i) =~= nodes);
    }
}

/// Adds what `node` may receive to `total`, unless the sum overflows.
fn add_claim_total(total: u64, node: &TreeNode) -> (r: Option<u64>)
    ensures
        r matches Some(t) ==> t == total + node.claim_total(),
        r is None <==> total + node.claim_total() > u64::MAX,
{
    let parts: [u64; 6] = [
        node.total_unlocked_staker,
        node.total_unlocked_searcher,
        node.total_unlocked_validator,
        node.total_locked_staker,
        node.total_locked_searcher,
        node.total_locked_validator,
    ];
    let ghost whole = total + node.claim_total();
    let mut acc: u64 = total;
    let mut i: usize = 0;
    proof {
        reveal_with_fuel(rest_sum, 7);
    }
    while i < 6
        invariant
            0 <= i <= 6,
            parts@.len() == 6,
            parts@ == seq![
                node.total_unlocked_staker,
                node.total_unlocked_searcher,
                node.total_unlocked_validator,
                node.total_locked_staker,
                node.total_locked_searcher,
                node.total_locked_validator,
            ],
            whole == total + node.claim_total(),
            acc + rest_sum(parts@, i as int) == whole,
        decreases 6 - i,
    {
        proof {
            lemma_rest_sum_nonneg(parts@, i + 1);
        }
        match acc.checked_add(parts[i]) {
            Some(t) => {
                acc = t;
            },
            None => {
                return None;
            },
        }
        i = i + 1;
    }
    Some(acc)
}

/// The sum of `parts` from position `i` on.
spec fn rest_sum(parts: Seq<u64>, i: int) -> int
    decreases parts.len() - i,
{
    if i >= parts.len() || i < 0 {
        0
    } else {
        parts[i] + rest_sum(parts, i + 1)
    }
}

proof fn lemma_rest_sum_nonneg(parts: Seq<u64>, i: int)
    ensures
        rest_sum(parts, i) >= 0,
    decreases parts.len() - i,
{
    if 0 <= i < parts.len() {
        lemma_rest_sum_nonneg(parts, i + 1);
    }
}

/// A tree over a list of recipients together with the totals that bound
/// what may be claimed from it.
#[derive(Debug)]
pub struct AirdropMerkleTree {
    pub merkle_root: Hash32,
    pub max_num_nodes: u64,
    pub max_total_claim: u64,
    pub tree_nodes: Vec<TreeNode>,
}

impl AirdropMerkleTree {
    /// The root, the totals and every proof agree with the recipient list.
    pub open spec fn wf(&self) -> bool {
        let nodes = self.tree_nodes@;
        &&& nodes.len() > 0
        &&& self.max_num_nodes == nodes.len()
        &&& self.max_total_claim == total_claim(nodes)
        &&& self.merkle_root == merkle_root_of(leaves_of(nodes))
        &&& forall|i: int| 0 <= i < nodes.len() ==> #[trigger] nodes[i].has_proof(proof_of(leaves_of(nodes), i))
    }

    /// Builds the tree over `tree_nodes`, keeping their order, and fills in
    /// each recipient's proof.
    pub fn new(tree_nodes: Vec<TreeNode>) -> (r: Result<AirdropMerkleTree, MerkleTreeError>)
        ensures
            built_from(tree_nodes@, r),
    {
        let n = tree_nodes.len();
        if n == 0 {
            return Err(MerkleTreeError::EmptyTree);
        }
        let mut total: u64 = 0;
        let mut i: usize = 0;
        while i < n
            invariant
                n == tree_nodes@.len(),
                i <= n,
                total == total_claim(tree_nodes@.subrange(0, i as int)),
            decreases n - i,
        {
            let node = &tree_nodes[i];
            proof {
                assert(tree_nodes@.subrange(0, i + 1).drop_last() =~= tree_nodes@.subrange(0, i as int));
                lemma_total_claim_bounds(tree_nodes@, i + 1);
            }
            let sum = add_claim_total(total, node);
            match sum {
                Some(t) => {
                    total = t;
                },
                None => {
                    return Err(MerkleTreeError::ClaimTotalOverflow);
                },
            }
            i = i + 1;
        }
        assert(tree_nodes@.subrange(0, n as int) =~= tree_nodes@);
        let mut leaves: Vec<Hash32> = Vec::new();
        let mut j: usize = 0;
        while j < n
            invariant
                n == tree_nodes@.len(),
                j <= n,
                total_claim(tree_nodes@) <= u64::MAX,
                leaves@ =~= leaves_of(tree_nodes@).subrange(0, j as int),
            decreases n - j,
        {
            proof {
                lemma_total_claim_bounds(tree_nodes@, j as int);
            }
            let h = tree_nodes[j].hash();
            leaves.push(h);
            j = j + 1;
        }
        let ghost bottom = leaves@;
        assert(bottom =~= leaves_of(tree_nodes@));
        let levels = build_levels(leaves);
        let root = levels[levels.len() - 1][0];
        let mut out: Vec<TreeNode> = Vec::new();
        let mut k: usize = 0;
        while k < n
            invariant
                n == tree_nodes@.len(),
                k <= n,
                crate::tree::is_level_chain(levels@),
                levels@[0]@ == bottom,
                bottom == leaves_of(tree_nodes@),
                out@.len() == k,
                forall|m: int| 0 <= m < k ==> #[trigger] out@[m].same_allocation(&tree_nodes@[m]),
                forall|m: int| 0 <= m < k ==> #[trigger] out@[m].has_proof(proof_of(bottom, m)),
            decreases n - k,
        {
            let p = proof_path(&levels, k);
            let node = &tree_nodes[k];
            out.push(
                TreeNode {
                    claimant: node.claimant,
                    total_unlocked_staker: node.total_unlocked_staker,
                    total_locked_staker: node.total_locked_staker,
                    total_unlocked_searcher: node.total_unlocked_searcher,
                    total_locked_searcher: node.total_locked_searcher,
                    total_unlocked_validator: node.total_unlocked_validator,
                    total_locked_validator: node.total_locked_validator,
                    proof: Some(p),
                },
            );
            k = k + 1;
        }
        proof {
            assert forall|m: int| 0 <= m < n implies #[trigger] out@[m].leaf() == tree_nodes@[m].leaf() by {
                assert(out@[m].same_allocation(&tree_nodes@[m]));
            }
            assert(leaves_of(out@) =~= bottom);
            lemma_total_claim_same_allocation(out@, tree_nodes@);
        }
        Ok(AirdropMerkleTree { merkle_root: root, max_num_nodes: n as u64, max_total_claim: total, tree_nodes: out })
    }
}

impl AirdropMerkleTree {
    /// Builds the tree over a recipient list in text form, merging the rows of
    /// each claimant into one recipient.
    pub fn new_from_csv(text: &[u8]) -> (r: Result<AirdropMerkleTree, MerkleTreeError>)
        ensures
            match csv_entries(text@) {
                Err(e) => r == Err::<AirdropMerkleTree, MerkleTreeError>(MerkleTreeError::Csv(e)),
                Ok(es) => if !sums_fit(es) {
                    r == Err::<AirdropMerkleTree, MerkleTreeError>(MerkleTreeError::Csv(CsvError::AmountOverflow))
                } else {
                    built_from(recipients_of(es), r)
                },
            },
    {
        let entries = match parse_csv(text) {
            Ok(es) => es,
            Err(e) => {
                return Err(MerkleTreeError::Csv(e));
            },
        };
        let nodes = match aggregate_entries(&entries) {
            Ok(n) => n,
            Err(e) => {
                return Err(MerkleTreeError::Csv(e));
            },
        };
        AirdropMerkleTree::new(nodes)
    }

    /// The first recipient whose claimant is `claimant`, if any.
    pub fn get_node(&self, claimant: &Pubkey) -> (r: Option<&TreeNode>)
        ensures
            r is None ==> forall|i: int| 0 <= i < self.tree_nodes@.len() ==> self.tree_nodes@[i].claimant != *claimant,
            r matches Some(n) ==> exists|i: int|
                0 <= i < self.tree_nodes@.len() && *n == self.tree_nodes@[i] && n.claimant == *claimant && forall|j: int|
                    0 <= j < i ==> self.tree_nodes@[j].claimant != *claimant,
    {
        let mut i: usize = 0;
        while i < self.tree_nodes.len()
            invariant
                i <= self.tree_nodes@.len(),
                forall|j: int| 0 <= j < i ==> self.tree_nodes@[j].claimant != *claimant,
            decreases self.tree_nodes@.len() - i,
        {
            if crate::hash::hash_eq(&self.tree_nodes[i].claimant, claimant) {
                return Some(&self.tree_nodes[i]);
            }
            i = i + 1;
        }
        None
    }
}

/// Lists of the same allocations claim the same total.
proof fn lemma_total_claim_same_allocation(a: Seq<TreeNode>, b: Seq<TreeNode>)
    requires
        a.len() == b.len(),
        forall|m: int| 0 <= m < a.len() ==> #[trigger] a[m].same_allocation(&b[m]),
    ensures
        total_claim(a) == total_claim(b),
    decreases a.len(),
{
    if a.len() > 0 {
        assert(a.last().same_allocation(&b.last()));
        let (ia, ib) = (a.drop_last(), b.drop_last());
        assert forall|m: int| 0 <= m < ia.len() implies #[trigger] ia[m].same_allocation(&ib[m]) by {
            assert(a[m].same_allocation(&b[m]));
        }
        lemma_total_claim_same_allocation(ia, ib);
    }
}

/// Every recipient's proof, folded into its leaf, reproduces the tree's root.
pub proof fn lemma_every_proof_verifies(tree: AirdropMerkleTree, i: int)
    requires
        tree.wf(),
        0 <= i < tree.tree_nodes@.len(),
    ensures
        fold_proof(tree.tree_nodes@[i].leaf(), tree.tree_nodes@[i].proof->Some_0@) == tree.merkle_root,
{
    let nodes = tree.tree_nodes@;
    assert(nodes[i].has_proof(proof_of(leaves_of(nodes), i)));
    lemma_proof_of_folds_to_root(leaves_of(nodes), i);
}

} // verus!
