//! The two claim operations: the first claim of a claimant, which pays the
//! unlocked amount and creates its record, and later withdrawals of what vested.
use vstd::prelude::*;

use crate::airdrop::Pubkey;
use crate::hash::Hash32;
use crate::merkle::{fold_proof, hash_leaf, leaf_hash, verify};
use crate::state::{ClaimStatus, ClaimStatusStore, ErrorCode, MerkleDistributor, TokenAccount};

verus! {

/// The accounts of a first claim.
#[derive(Debug, Clone, Copy)]
pub struct NewClaim {
    /// The distribution claimed from.
    pub distributor: MerkleDistributor,
    /// The distribution's vault.
    pub from: TokenAccount,
    /// The claimant's token account.
    pub to: TokenAccount,
    /// Who claims; the caller.
    pub claimant: Pubkey,
}

/// The first check that a first claim fails, if any.
pub open spec fn new_claim_error(
    ctx: NewClaim,
    claims: Map<Pubkey, ClaimStatus>,
    amount_unlocked: u64,
    amount_locked: u64,
    proof: Seq<Hash32>,
) -> Option<ErrorCode> {
    let d = ctx.distributor;
    if d.clawed_back {
        Some(ErrorCode::ClaimExpired)
    } else if ctx.to.owner != ctx.claimant {
        Some(ErrorCode::OwnerMismatch)
    } else if d.num_nodes_claimed + 1 > u64::MAX {
        Some(ErrorCode::ArithmeticError)
    } else if d.num_nodes_claimed + 1 > d.max_num_nodes {
        Some(ErrorCode::MaxNodesExceeded)
    } else if fold_proof(leaf_hash(ctx.claimant@, amount_unlocked, amount_locked), proof) != d.root {
        Some(ErrorCode::InvalidProof)
    } else if claims.contains_key(ctx.claimant) {
        Some(ErrorCode::AlreadyClaimed)
    } else if ctx.from.amount < amount_unlocked {
        Some(ErrorCode::InsufficientUnlockedTokens)
    } else if ctx.to.amount + amount_unlocked > u64::MAX {
        Some(ErrorCode::ArithmeticError)
    } else if d.total_amount_claimed + amount_unlocked > u64::MAX {
        Some(ErrorCode::ArithmeticError)
    } else if d.total_amount_claimed + amount_unlocked > d.max_total_claim {
        Some(ErrorCode::ExceededMaxClaim)
    } else {
        None
    }
}

/// The accounts after a successful first claim: one more node claimed, the
/// unlocked amount moved from the vault to the claimant and added to the total.
pub open spec fn new_claim_effect(ctx: NewClaim, amount_unlocked: u64) -> NewClaim {
    NewClaim {
        distributor: MerkleDistributor {
            num_nodes_claimed: (ctx.distributor.num_nodes_claimed + 1) as u64,
            total_amount_claimed: (ctx.distributor.total_amount_claimed + amount_unlocked) as u64,
            ..ctx.distributor
        },
        from: TokenAccount { amount: (ctx.from.amount - amount_unlocked) as u64, ..ctx.from },
        to: TokenAccount { amount: (ctx.to.amount + amount_unlocked) as u64, ..ctx.to },
        ..ctx
    }
}

/// The record a first claim creates.
pub open spec fn new_claim_record(claimant: Pubkey, amount_unlocked: u64, amount_locked: u64) -> ClaimStatus {
    ClaimStatus {
        claimant,
        locked_amount: amount_locked,
        locked_amount_withdrawn: 0,
        unlocked_amount: amount_unlocked,
    }
}

/// First claim of `ctx.claimant`: checks that the distribution is live, that
/// a node may still claim, that the proof places the claimant and amounts in
/// the tree and that the claimant has no record; then creates its record,
/// pays the unlocked amount and counts it. On any failure nothing changes.
pub fn handle_new_claim(
    ctx: &mut NewClaim,
    claims: &mut ClaimStatusStore,
    amount_unlocked: u64,
    amount_locked: u64,
    proof: Vec<Hash32>,
) -> (r: Result<(), ErrorCode>)
    requires
        old(claims).wf(),
    ensures
        final(claims).wf(),
        match new_claim_error(*old(ctx), old(claims)@, amount_unlocked, amount_locked, proof@) {
            Some(e) => {
                &&& r == Err::<(), ErrorCode>(e)
                &&& *final(ctx) == *old(ctx)
                &&& final(claims)@ == old(claims)@
            },
            None => {
                &&& r == Ok::<(), ErrorCode>(())
                &&& *final(ctx) == new_claim_effect(*old(ctx), amount_unlocked)
                &&& final(claims)@ == old(claims)@.insert(
                    old(ctx).claimant,
                    new_claim_record(old(ctx).claimant, amount_unlocked, amount_locked),
                )
            },
        },
        old(ctx).distributor.within_bounds() ==> final(ctx).distributor.within_bounds(),
{
    let d = ctx.distributor;
    if d.clawed_back {
        return Err(ErrorCode::ClaimExpired);
    }
    if !crate::hash::hash_eq(&ctx.to.owner, &ctx.claimant) {
        return Err(ErrorCode::OwnerMismatch);
    }
    let num_nodes_claimed = match d.num_nodes_claimed.checked_add(1) {
        Some(n) => n,
        None => {
            return Err(ErrorCode::ArithmeticError);
        },
    };
    if num_nodes_claimed > d.max_num_nodes {
        return Err(ErrorCode::MaxNodesExceeded);
    }
    let node = hash_leaf(&ctx.claimant, amount_unlocked, amount_locked);
    if !verify(&proof, d.root, node) {
        return Err(ErrorCode::InvalidProof);
    }
    if claims.get(&ctx.claimant).is_some() {
        return Err(ErrorCode::AlreadyClaimed);
    }
    if ctx.from.amount < amount_unlocked {
        return Err(ErrorCode::InsufficientUnlockedTokens);
    }
    let to_amount = match ctx.to.amount.checked_add(amount_unlocked) {
        Some(a) => a,
        None => {
            return Err(ErrorCode::ArithmeticError);
        },
    };
    let total_amount_claimed = match d.total_amount_claimed.checked_add(amount_unlocked) {
        Some(t) => t,
        None => {
            return Err(ErrorCode::ArithmeticError);
        },
    };
    if total_amount_claimed > d.max_total_claim {
        return Err(ErrorCode::ExceededMaxClaim);
    }
    let record = ClaimStatus {
        claimant: ctx.claimant,
        locked_amount: amount_locked,
        locked_amount_withdrawn: 0,
        unlocked_amount: amount_unlocked,
    };
    let inserted = claims.insert_new(record);
    assert(inserted);
    ctx.from.amount = ctx.from.amount - amount_unlocked;
    ctx.to.amount = to_amount;
    ctx.distributor.num_nodes_claimed = num_nodes_claimed;
    ctx.distributor.total_amount_claimed = total_amount_claimed;
    Ok(())
}

/// The accounts of a withdrawal of vested tokens.
#[derive(Debug, Clone, Copy)]
pub struct ClaimLocked {
    /// The distribution claimed from.
    pub distributor: MerkleDistributor,
    /// The distribution's vault.
    pub from: TokenAccount,
    /// The claimant's token account.
    pub to: TokenAccount,
    /// Who claims; the caller.
    pub claimant: Pubkey,
}

/// What a withdrawal at `curr_ts` pays out from `status`.
pub open spec fn locked_payout(d: MerkleDistributor, status: ClaimStatus, curr_ts: i64) -> int {
    status.spec_amount_withdrawable(curr_ts, d.start_ts, d.end_ts)
}

/// The first check that a withdrawal at `curr_ts` fails, if any.
pub open spec fn claim_locked_error(
    ctx: ClaimLocked,
    claims: Map<Pubkey, ClaimStatus>,
    curr_ts: i64,
) -> Option<ErrorCode> {
    let d = ctx.distributor;
    let status = claims[ctx.claimant];
    let amount = locked_payout(d, status, curr_ts);
    if d.clawed_back {
        Some(ErrorCode::ClaimExpired)
    } else if !claims.contains_key(ctx.claimant) {
        Some(ErrorCode::ClaimExpired)
    } else if ctx.to.owner != ctx.claimant {
        Some(ErrorCode::OwnerMismatch)
    } else if amount == 0 {
        Some(ErrorCode::InsufficientUnlockedTokens)
    } else if ctx.from.amount < amount {
        Some(ErrorCode::InsufficientUnlockedTokens)
    } else if ctx.to.amount + amount > u64::MAX {
        Some(ErrorCode::ArithmeticError)
    } else if status.locked_amount_withdrawn + amount > u64::MAX {
        Some(ErrorCode::ArithmeticError)
    } else if status.locked_amount_withdrawn + amount > status.locked_amount {
        Some(ErrorCode::ExceededMaxClaim)
    } else if d.total_amount_claimed + amount > u64::MAX {
        Some(ErrorCode::ArithmeticError)
    } else if d.total_amount_claimed + amount > d.max_total_claim {
        Some(ErrorCode::ExceededMaxClaim)
    } else {
        None
    }
}

/// The accounts after a successful withdrawal of `amount`.
pub open spec fn claim_locked_effect(ctx: ClaimLocked, amount: int) -> ClaimLocked {
    ClaimLocked {
        distributor: MerkleDistributor {
            total_amount_claimed: (ctx.distributor.total_amount_claimed + amount) as u64,
            ..ctx.distributor
        },
        from: TokenAccount { amount: (ctx.from.amount - amount) as u64, ..ctx.from },
        to: TokenAccount { amount: (ctx.to.amount + amount) as u64, ..ctx.to },
        ..ctx
    }
}

/// The record after a withdrawal of `amount`.
pub open spec fn claim_locked_record(status: ClaimStatus, amount: int) -> ClaimStatus {
    ClaimStatus { locked_amount_withdrawn: (status.locked_amount_withdrawn + amount) as u64, ..status }
}

/// Withdrawal by `ctx.claimant` of what has vested by `curr_ts` and was not
/// withdrawn yet: checks that the distribution is live and that the caller has
/// a record, pays the withdrawable amount and adds it to the record and to the
/// distribution's total. On any failure nothing changes.
pub fn handle_claim_locked(ctx: &mut ClaimLocked, claims: &mut ClaimStatusStore, curr_ts: i64) -> (r: Result<
    (),
    ErrorCode,
>)
    requires
        old(claims).wf(),
    ensures
        final(claims).wf(),
        match claim_locked_error(*old(ctx), old(claims)@, curr_ts) {
            Some(e) => {
                &&& r == Err::<(), ErrorCode>(e)
                &&& *final(ctx) == *old(ctx)
                &&& final(claims)@ == old(claims)@
            },
            None => {
                let status = old(claims)@[old(ctx).claimant];
                let amount = locked_payout(old(ctx).distributor, status, curr_ts);
                &&& r == Ok::<(), ErrorCode>(())
                &&& *final(ctx) == claim_locked_effect(*old(ctx), amount)
                &&& final(claims)@ == old(claims)@.insert(
                    old(ctx).claimant,
                    claim_locked_record(status, amount),
                )
            },
        },
        old(ctx).distributor.within_bounds() ==> final(ctx).distributor.within_bounds(),
{
    let d = ctx.distributor;
    if d.clawed_back {
        return Err(ErrorCode::ClaimExpired);
    }
    let status = match claims.get(&ctx.claimant) {
        Some(s) => s,
        None => {
            return Err(ErrorCode::ClaimExpired);
        },
    };
    if !crate::hash::hash_eq(&ctx.to.owner, &ctx.claimant) {
        return Err(ErrorCode::OwnerMismatch);
    }
    let amount = status.amount_withdrawable(curr_ts, d.start_ts, d.end_ts);
    if amount == 0 {
        return Err(ErrorCode::InsufficientUnlockedTokens);
    }
    if ctx.from.amount < amount {
        return Err(ErrorCode::InsufficientUnlockedTokens);
    }
    let to_amount = match ctx.to.amount.checked_add(amount) {
        Some(a) => a,
        None => {
            return Err(ErrorCode::ArithmeticError);
        },
    };
    let withdrawn = match status.locked_amount_withdrawn.checked_add(amount) {
        Some(w) => w,
        None => {
            return Err(ErrorCode::ArithmeticError);
        },
    };
    if withdrawn > status.locked_amount {
        return Err(ErrorCode::ExceededMaxClaim);
    }
    let total_amount_claimed = match d.total_amount_claimed.checked_add(amount) {
        Some(t) => t,
        None => {
            return Err(ErrorCode::ArithmeticError);
        },
    };
    if total_amount_claimed > d.max_total_claim {
        return Err(ErrorCode::ExceededMaxClaim);
    }
    claims.update(ClaimStatus { locked_amount_withdrawn: withdrawn, ..status });
    ctx.from.amount = ctx.from.amount - amount;
    ctx.to.amount = to_amount;
    ctx.distributor.total_amount_claimed = total_amount_claimed;
    Ok(())
}

/// The accounts of a clawback.
#[derive(Debug, Clone, Copy)]
pub struct Clawback {
    /// The distribution clawed back.
    pub distributor: MerkleDistributor,
    /// The distribution's vault.
    pub from: TokenAccount,
    /// The clawback receiver's token account.
    pub to: TokenAccount,
    /// Who signs; must be the admin.
    pub signer: Pubkey,
}

/// The first check that a clawback at `curr_ts` fails, if any.
pub open spec fn clawback_error(ctx: Clawback, curr_ts: i64) -> Option<ErrorCode> {
    let d = ctx.distributor;
    if d.clawed_back {
        Some(ErrorCode::ClawbackAlreadyClaimed)
    } else if ctx.signer != d.admin {
        Some(ErrorCode::Unauthorized)
    } else if ctx.to.address != d.clawback_receiver {
        Some(ErrorCode::ClawbackReceiverMismatch)
    } else if curr_ts < d.clawback_start_ts {
        Some(ErrorCode::ClawbackBeforeStart)
    } else if ctx.to.amount + ctx.from.amount > u64::MAX {
        Some(ErrorCode::ArithmeticError)
    } else {
        None
    }
}

/// The accounts after a clawback: the whole vault moved to the receiver and
/// the distribution marked as clawed back.
pub open spec fn clawback_effect(ctx: Clawback) -> Clawback {
    Clawback {
        distributor: MerkleDistributor { clawed_back: true, ..ctx.distributor },
        from: TokenAccount { amount: 0, ..ctx.from },
        to: TokenAccount { amount: (ctx.to.amount + ctx.from.amount) as u64, ..ctx.to },
        ..ctx
    }
}

/// Sweeps the vault to the clawback receiver once the clawback period has
/// started, and ends all further payouts. On any failure nothing changes.
pub fn handle_clawback(ctx: &mut Clawback, curr_ts: i64) -> (r: Result<(), ErrorCode>)
    ensures
        match clawback_error(*old(ctx), curr_ts) {
            Some(e) => r == Err::<(), ErrorCode>(e) && *final(ctx) == *old(ctx),
            None => r == Ok::<(), ErrorCode>(()) && *final(ctx) == clawback_effect(*old(ctx)),
        },
        old(ctx).distributor.within_bounds() ==> final(ctx).distributor.within_bounds(),
        old(ctx).distributor.clawed_back ==> final(ctx).distributor.clawed_back,
{
    let d = ctx.distributor;
    if d.clawed_back {
        return Err(ErrorCode::ClawbackAlreadyClaimed);
    }
    if !crate::hash::hash_eq(&ctx.signer, &d.admin) {
        return Err(ErrorCode::Unauthorized);
    }
    if !crate::hash::hash_eq(&ctx.to.address, &d.clawback_receiver) {
        return Err(ErrorCode::ClawbackReceiverMismatch);
    }
    if curr_ts < d.clawback_start_ts {
        return Err(ErrorCode::ClawbackBeforeStart);
    }
    let to_amount = match ctx.to.amount.checked_add(ctx.from.amount) {
        Some(a) => a,
        None => {
            return Err(ErrorCode::ArithmeticError);
        },
    };
    ctx.to.amount = to_amount;
    ctx.from.amount = 0;
    ctx.distributor.clawed_back = true;
    Ok(())
}

/// A claimant's second first claim always fails, whatever its amounts and
/// proof, and so leaves every account and record as they were.
pub proof fn lemma_second_new_claim_fails(
    first: NewClaim,
    claims: Map<Pubkey, ClaimStatus>,
    amount_unlocked: u64,
    amount_locked: u64,
    proof: Seq<Hash32>,
    second: NewClaim,
    second_amount_unlocked: u64,
    second_amount_locked: u64,
    second_proof: Seq<Hash32>,
)
    requires
        new_claim_error(first, claims, amount_unlocked, amount_locked, proof) is None,
        second.claimant == first.claimant,
    ensures
        new_claim_error(
            second,
            claims.insert(first.claimant, new_claim_record(first.claimant, amount_unlocked, amount_locked)),
            second_amount_unlocked,
            second_amount_locked,
            second_proof,
        ) is Some,
{
}

/// Once a distribution is clawed back, every first claim and every withdrawal
/// fails with `ClaimExpired`.
pub proof fn lemma_clawed_back_blocks_claims(
    new_claim: NewClaim,
    claims: Map<Pubkey, ClaimStatus>,
    amount_unlocked: u64,
    amount_locked: u64,
    proof: Seq<Hash32>,
    claim_locked: ClaimLocked,
    curr_ts: i64,
)
    requires
        new_claim.distributor.clawed_back,
        claim_locked.distributor.clawed_back,
    ensures
        new_claim_error(new_claim, claims, amount_unlocked, amount_locked, proof) == Some(
            ErrorCode::ClaimExpired,
        ),
        claim_locked_error(claim_locked, claims, curr_ts) == Some(ErrorCode::ClaimExpired),
{
}

} // verus!
