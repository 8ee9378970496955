//! Creating a distribution, checking an existing one against intended
//! parameters, and rotating its admin.
use vstd::prelude::*;

use crate::airdrop::{AirdropMerkleTree, Pubkey};
use crate::hash::{Hash32, hash_eq};
use crate::state::{ErrorCode, MerkleDistributor};

verus! {

/// The least time, in seconds, between the end of vesting and the start of clawback.
pub const SECONDS_PER_DAY: i64 = 86400;

/// The parameters a new distribution is created with, besides its tree.
pub struct NewDistributorArgs {
    /// The token account that receives what is clawed back.
    pub clawback_receiver_token_account: Pubkey,
    /// When vesting starts.
    pub start_vesting_ts: i64,
    /// When vesting ends.
    pub end_vesting_ts: i64,
    /// Where the tree is stored.
    pub merkle_tree_path: String,
    /// When clawback becomes possible.
    pub clawback_start_ts: i64,
}

/// The first check that creating a distribution fails, if any.
pub open spec fn new_distributor_error(start_vesting_ts: i64, end_vesting_ts: i64, clawback_start_ts: i64) -> Option<
    ErrorCode,
> {
    if start_vesting_ts >= end_vesting_ts {
        Some(ErrorCode::StartTimestampAfterEnd)
    } else if clawback_start_ts < end_vesting_ts + SECONDS_PER_DAY {
        Some(ErrorCode::InsufficientClawbackDelay)
    } else {
        None
    }
}

/// Creates a distribution with zeroed counters, not clawed back, after checking
/// that vesting starts before it ends and that clawback starts at least a day
/// after vesting ends.
pub fn new_distributor(
    version: u64,
    root: Hash32,
    max_total_claim: u64,
    max_num_nodes: u64,
    start_vesting_ts: i64,
    end_vesting_ts: i64,
    clawback_start_ts: i64,
    mint: Pubkey,
    token_vault: Pubkey,
    clawback_receiver: Pubkey,
    admin: Pubkey,
) -> (r: Result<MerkleDistributor, ErrorCode>)
    ensures
        match new_distributor_error(start_vesting_ts, end_vesting_ts, clawback_start_ts) {
            Some(e) => r == Err::<MerkleDistributor, ErrorCode>(e),
            None => r == Ok::<MerkleDistributor, ErrorCode>(
                MerkleDistributor {
                    version,
                    root,
                    mint,
                    token_vault,
                    max_total_claim,
                    max_num_nodes,
                    total_amount_claimed: 0,
                    num_nodes_claimed: 0,
                    start_ts: start_vesting_ts,
                    end_ts: end_vesting_ts,
                    clawback_start_ts,
                    clawback_receiver,
                    admin,
                    clawed_back: false,
                },
            ),
        },
{
    if start_vesting_ts >= end_vesting_ts {
        return Err(ErrorCode::StartTimestampAfterEnd);
    }
    if (clawback_start_ts as i128) < end_vesting_ts as i128 + SECONDS_PER_DAY as i128 {
        return Err(ErrorCode::InsufficientClawbackDelay);
    }
    Ok(
        MerkleDistributor {
            version,
            root,
            mint,
            token_vault,
            max_total_claim,
            max_num_nodes,
            total_amount_claimed: 0,
            num_nodes_claimed: 0,
            start_ts: start_vesting_ts,
            end_ts: end_vesting_ts,
            clawback_start_ts,
            clawback_receiver,
            admin,
            clawed_back: false,
        },
    )
}

/// The first check that an admin rotation fails, if any.
pub open spec fn set_admin_error(d: MerkleDistributor, signer: Pubkey, new_admin: Pubkey) -> Option<ErrorCode> {
    if signer != d.admin {
        Some(ErrorCode::Unauthorized)
    } else if new_admin == d.admin {
        Some(ErrorCode::SameAdmin)
    } else {
        None
    }
}

/// Replaces the admin, when the current admin signs and names another one.
pub fn handle_set_admin(distributor: &mut MerkleDistributor, signer: &Pubkey, new_admin: &Pubkey) -> (r: Result<
    (),
    ErrorCode,
>)
    ensures
        match set_admin_error(*old(distributor), *signer, *new_admin) {
            Some(e) => r == Err::<(), ErrorCode>(e) && *final(distributor) == *old(distributor),
            None => r == Ok::<(), ErrorCode>(()) && *final(distributor) == (MerkleDistributor {
                admin: *new_admin,
                ..*old(distributor)
            }),
        },
        old(distributor).within_bounds() ==> final(distributor).within_bounds(),
        final(distributor).clawed_back == old(distributor).clawed_back,
{
    if !hash_eq(signer, &distributor.admin) {
        return Err(ErrorCode::Unauthorized);
    }
    if hash_eq(new_admin, &distributor.admin) {
        return Err(ErrorCode::SameAdmin);
    }
    distributor.admin = *new_admin;
    Ok(())
}

/// Which stored parameter differs from the intended one.
#[derive(Debug, PartialEq, Eq, Structural, Clone, Copy)]
pub enum DistributorMismatch {
    Root,
    MaxTotalClaim,
    MaxNumNodes,
    StartTs,
    EndTs,
    ClawbackStartTs,
    ClawbackReceiver,
    Admin,
}

impl DistributorMismatch {
    /// The text that describes the mismatch.
    pub open spec fn spec_message(&self) -> Seq<char> {
        match self {
            DistributorMismatch::Root => "root mismatch"@,
            DistributorMismatch::MaxTotalClaim => "max_total_claim mismatch"@,
            DistributorMismatch::MaxNumNodes => "max_num_nodes mismatch"@,
            DistributorMismatch::StartTs => "start_ts mismatch"@,
            DistributorMismatch::EndTs => "end_ts mismatch"@,
            DistributorMismatch::ClawbackStartTs => "clawback_start_ts mismatch"@,
            DistributorMismatch::ClawbackReceiver => "clawback_receiver mismatch"@,
            DistributorMismatch::Admin => "admin mismatch"@,
        }
    }

    /// A short description of the mismatch.
    pub fn message(&self) -> (r: &'static str)
        ensures
            r@ == self.spec_message(),
    {
        match self {
            DistributorMismatch::Root => "root mismatch",
            DistributorMismatch::MaxTotalClaim => "max_total_claim mismatch",
            DistributorMismatch::MaxNumNodes => "max_num_nodes mismatch",
            DistributorMismatch::StartTs => "start_ts mismatch",
            DistributorMismatch::EndTs => "end_ts mismatch",
            DistributorMismatch::ClawbackStartTs => "clawback_start_ts mismatch",
            DistributorMismatch::ClawbackReceiver => "clawback_receiver mismatch",
            DistributorMismatch::Admin => "admin mismatch",
        }
    }
}

/// The first parameter in which an existing distribution differs from the
/// intended tree, schedule, receiver and admin, if any.
pub open spec fn distributor_mismatch(
    distributor: MerkleDistributor,
    merkle_tree: AirdropMerkleTree,
    new_distributor_args: NewDistributorArgs,
    pubkey: Pubkey,
) -> Option<DistributorMismatch> {
    if distributor.root != merkle_tree.merkle_root {
        Some(DistributorMismatch::Root)
    } else if distributor.max_total_claim != merkle_tree.max_total_claim {
        Some(DistributorMismatch::MaxTotalClaim)
    } else if distributor.max_num_nodes != merkle_tree.max_num_nodes {
        Some(DistributorMismatch::MaxNumNodes)
    } else if distributor.start_ts != new_distributor_args.start_vesting_ts {
        Some(DistributorMismatch::StartTs)
    } else if distributor.end_ts != new_distributor_args.end_vesting_ts {
        Some(DistributorMismatch::EndTs)
    } else if distributor.clawback_start_ts != new_distributor_args.clawback_start_ts {
        Some(DistributorMismatch::ClawbackStartTs)
    } else if distributor.clawback_receiver != new_distributor_args.clawback_receiver_token_account {
        Some(DistributorMismatch::ClawbackReceiver)
    } else if distributor.admin != pubkey {
        Some(DistributorMismatch::Admin)
    } else {
        None
    }
}

/// Checks that an existing distribution was created with the intended
/// parameters, so that it is not re-used when someone else created it first.
pub fn check_distributor_onchain_matches(
    distributor: &MerkleDistributor,
    merkle_tree: &AirdropMerkleTree,
    new_distributor_args: &NewDistributorArgs,
    pubkey: Pubkey,
) -> (r: Result<(), DistributorMismatch>)
    ensures
        match distributor_mismatch(*distributor, *merkle_tree, *new_distributor_args, pubkey) {
            Some(m) => r == Err::<(), DistributorMismatch>(m),
            None => r == Ok::<(), DistributorMismatch>(()),
        },
{
    if !hash_eq(&distributor.root, &merkle_tree.merkle_root) {
        return Err(DistributorMismatch::Root);
    }
    if distributor.max_total_claim != merkle_tree.max_total_claim {
        return Err(DistributorMismatch::MaxTotalClaim);
    }
    if distributor.max_num_nodes != merkle_tree.max_num_nodes {
        return Err(DistributorMismatch::MaxNumNodes);
    }
    if distributor.start_ts != new_distributor_args.start_vesting_ts {
        return Err(DistributorMismatch::StartTs);
    }
    if distributor.end_ts != new_distributor_args.end_vesting_ts {
        return Err(DistributorMismatch::EndTs);
    }
    if distributor.clawback_start_ts != new_distributor_args.clawback_start_ts {
        return Err(DistributorMismatch::ClawbackStartTs);
    }
    if !hash_eq(&distributor.clawback_receiver, &new_distributor_args.clawback_receiver_token_account) {
        return Err(DistributorMismatch::ClawbackReceiver);
    }
    if !hash_eq(&distributor.admin, &pubkey) {
        return Err(DistributorMismatch::Admin);
    }
    Ok(())
}

} // verus!
