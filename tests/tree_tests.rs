use merkle_distributor::airdrop::{AirdropMerkleTree, MerkleTreeError, TreeNode};
use merkle_distributor::merkle::{hash_intermediate, hash_leaf, verify};

fn staker_node(id: u8, unlocked: u64, locked: u64) -> TreeNode {
    TreeNode {
        claimant: [id; 32],
        total_unlocked_staker: unlocked,
        total_locked_staker: locked,
        total_unlocked_searcher: 0,
        total_locked_searcher: 0,
        total_unlocked_validator: 0,
        total_locked_validator: 0,
        proof: None,
    }
}

fn create_test_merkle_tree() -> AirdropMerkleTree {
    let tree_nodes = vec![
        TreeNode {
            claimant: [1; 32],
            total_unlocked_staker: 1000,
            total_locked_staker: 500,
            total_unlocked_searcher: 0,
            total_locked_searcher: 0,
            total_unlocked_validator: 0,
            total_locked_validator: 0,
            proof: None,
        },
        TreeNode {
            claimant: [2; 32],
            total_unlocked_staker: 0,
            total_locked_staker: 0,
            total_unlocked_searcher: 0,
            total_locked_searcher: 0,
            total_unlocked_validator: 2000,
            total_locked_validator: 1000,
            proof: None,
        },
    ];
    AirdropMerkleTree::new(tree_nodes).expect("Failed to create merkle tree")
}

fn node_verifies(tree: &AirdropMerkleTree, node: &TreeNode) -> bool {
    let leaf = hash_leaf(&node.claimant, node.amount_unlocked(), node.amount_locked());
    verify(node.proof.as_ref().unwrap(), tree.merkle_root, leaf)
}

#[test]
fn test_merkle_tree_creation() {
    let merkle_tree = create_test_merkle_tree();
    assert_eq!(merkle_tree.tree_nodes.len(), 2);
    assert_eq!(merkle_tree.max_num_nodes, 2);
    let first_node = &merkle_tree.tree_nodes[0];
    assert_eq!(first_node.amount_unlocked(), 1000);
    assert_eq!(first_node.amount_locked(), 500);
    assert!(first_node.proof.is_some());
    let proof = first_node.proof.as_ref().unwrap();
    assert!(!proof.is_empty());
}

#[test]
fn test_merkle_proof_verification() {
    let merkle_tree = create_test_merkle_tree();
    for node in &merkle_tree.tree_nodes {
        let proof = node.proof.as_ref().unwrap();
        assert!(!proof.is_empty());
        assert!(node_verifies(&merkle_tree, node));
    }
}

#[test]
fn two_recipients_totals_and_proofs() {
    let tree = create_test_merkle_tree();
    assert_eq!(tree.max_total_claim, 4500);
    assert_eq!(tree.max_num_nodes, 2);
    assert_eq!(tree.tree_nodes[1].amount_unlocked(), 2000);
    assert_eq!(tree.tree_nodes[1].amount_locked(), 1000);
    assert!(node_verifies(&tree, &tree.tree_nodes[0]));
    assert!(node_verifies(&tree, &tree.tree_nodes[1]));
}

#[test]
fn every_proof_verifies_for_various_sizes() {
    for n in 1u8..=9 {
        let nodes: Vec<TreeNode> = (0..n).map(|i| staker_node(i + 10, 100 + i as u64, 7 * i as u64)).collect();
        let tree = AirdropMerkleTree::new(nodes).unwrap();
        assert_eq!(tree.max_num_nodes, n as u64);
        let expected_total: u64 = (0..n).map(|i| 100 + i as u64 + 7 * i as u64).sum();
        assert_eq!(tree.max_total_claim, expected_total);
        for node in &tree.tree_nodes {
            assert!(node_verifies(&tree, node));
        }
    }
}

#[test]
fn single_recipient_root_is_its_leaf() {
    let tree = AirdropMerkleTree::new(vec![staker_node(5, 10, 20)]).unwrap();
    assert_eq!(tree.tree_nodes[0].proof.as_ref().unwrap().len(), 0);
    assert_eq!(tree.merkle_root, hash_leaf(&[5; 32], 10, 20));
}

#[test]
fn odd_node_is_promoted_without_duplication() {
    let tree = AirdropMerkleTree::new(vec![staker_node(1, 1, 0), staker_node(2, 2, 0), staker_node(3, 3, 0)])
        .unwrap();
    let l0 = hash_leaf(&[1; 32], 1, 0);
    let l1 = hash_leaf(&[2; 32], 2, 0);
    let l2 = hash_leaf(&[3; 32], 3, 0);
    let expected = hash_intermediate(&hash_intermediate(&l0, &l1), &l2);
    assert_eq!(tree.merkle_root, expected);
    assert_eq!(tree.tree_nodes[2].proof.as_ref().unwrap().len(), 1);
    assert_eq!(tree.tree_nodes[0].proof.as_ref().unwrap().len(), 2);
}

#[test]
fn mutated_leaf_fields_invalidate_proof() {
    let tree = create_test_merkle_tree();
    let node = &tree.tree_nodes[0];
    let proof = node.proof.as_ref().unwrap();
    for byte in 0..32 {
        let mut claimant = node.claimant;
        claimant[byte] ^= 0x01;
        assert!(!verify(proof, tree.merkle_root, hash_leaf(&claimant, 1000, 500)));
    }
    for shift in [0u32, 8, 16, 56] {
        assert!(!verify(proof, tree.merkle_root, hash_leaf(&node.claimant, 1000 ^ (1u64 << shift), 500)));
        assert!(!verify(proof, tree.merkle_root, hash_leaf(&node.claimant, 1000, 500 ^ (1u64 << shift))));
    }
    assert!(verify(proof, tree.merkle_root, hash_leaf(&node.claimant, 1000, 500)));
}

#[test]
fn empty_or_short_proof_fails_for_multi_leaf_tree() {
    let tree = create_test_merkle_tree();
    let leaf = hash_leaf(&[1; 32], 1000, 500);
    assert!(!verify(&vec![], tree.merkle_root, leaf));
}

#[test]
fn empty_recipient_list_is_rejected() {
    assert_eq!(AirdropMerkleTree::new(vec![]).err(), Some(MerkleTreeError::EmptyTree));
}

#[test]
fn total_claim_overflow_is_rejected() {
    let nodes = vec![staker_node(1, u64::MAX, 0), staker_node(2, 1, 0)];
    assert_eq!(AirdropMerkleTree::new(nodes).err(), Some(MerkleTreeError::ClaimTotalOverflow));
    let nodes = vec![staker_node(1, u64::MAX - 1, 1)];
    assert!(AirdropMerkleTree::new(nodes).is_ok());
}

#[test]
fn leaf_hash_matches_reference_digest() {
    let expected: [u8; 32] = [
        130, 47, 149, 35, 86, 172, 15, 240, 157, 212, 228, 173, 51, 56, 142, 21, 222, 84, 139, 138, 170, 86, 195, 8,
        29, 105, 156, 192, 237, 239, 122, 134,
    ];
    assert_eq!(hash_leaf(&[1; 32], 1000, 500), expected);
}

#[test]
fn intermediate_hash_sorts_siblings() {
    let expected: [u8; 32] = [
        39, 243, 47, 187, 250, 194, 251, 187, 206, 88, 177, 7, 82, 20, 75, 90, 116, 70, 212, 185, 30, 75, 169, 15,
        253, 238, 48, 94, 145, 89, 128, 232,
    ];
    assert_eq!(hash_intermediate(&[3; 32], &[2; 32]), expected);
    assert_eq!(hash_intermediate(&[2; 32], &[3; 32]), expected);
}
