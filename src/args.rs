//! The inputs of the command-line operations, as plain values.
use vstd::prelude::*;

use crate::airdrop::Pubkey;

verus! {

/// Inputs of a claim: where the claimant's tree is stored.
pub struct ClaimArgs {
    pub merkle_tree_path: String,
}

/// Inputs of a clawback: where the clawback receiver's keypair is stored.
pub struct ClawbackArgs {
    pub clawback_keypair_path: String,
}

/// Inputs of building a tree: the recipient list and where the tree goes.
pub struct CreateMerkleTreeArgs {
    pub csv_path: String,
    pub merkle_tree_path: String,
}

/// Inputs of an admin rotation.
pub struct SetAdminArgs {
    pub new_admin: Pubkey,
}

} // verus!
