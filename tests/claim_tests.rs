use merkle_distributor::admin::{
    check_distributor_onchain_matches, handle_set_admin, new_distributor, DistributorMismatch, NewDistributorArgs,
};
use merkle_distributor::airdrop::{AirdropMerkleTree, TreeNode};
use merkle_distributor::claim::{handle_claim_locked, handle_clawback, handle_new_claim, ClaimLocked, Clawback, NewClaim};
use merkle_distributor::state::{ClaimStatus, ClaimStatusStore, ErrorCode, MerkleDistributor, TokenAccount};

const A: [u8; 32] = [1; 32];
const B: [u8; 32] = [2; 32];
const C: [u8; 32] = [3; 32];
const ADMIN: [u8; 32] = [9; 32];
const MINT: [u8; 32] = [7; 32];
const VAULT: [u8; 32] = [8; 32];
const RECEIVER: [u8; 32] = [6; 32];
const START: i64 = 1_000;
const END: i64 = 2_000;
const CLAWBACK: i64 = END + 86_400;

fn node(id: [u8; 32], unlocked: u64, locked: u64) -> TreeNode {
    TreeNode {
        claimant: id,
        total_unlocked_staker: unlocked,
        total_locked_staker: locked,
        total_unlocked_searcher: 0,
        total_locked_searcher: 0,
        total_unlocked_validator: 0,
        total_locked_validator: 0,
        proof: None,
    }
}

fn tree() -> AirdropMerkleTree {
    AirdropMerkleTree::new(vec![node(A, 1000, 500), node(B, 2000, 1000), node(C, 300, 0)]).unwrap()
}

fn distributor(tree: &AirdropMerkleTree) -> MerkleDistributor {
    new_distributor(0, tree.merkle_root, tree.max_total_claim, tree.max_num_nodes, START, END, CLAWBACK, MINT, VAULT, RECEIVER, ADMIN)
        .unwrap()
}

fn vault(amount: u64) -> TokenAccount {
    TokenAccount { address: VAULT, mint: MINT, owner: VAULT, amount }
}

fn wallet(owner: [u8; 32]) -> TokenAccount {
    TokenAccount { address: [owner[0].wrapping_add(100); 32], mint: MINT, owner, amount: 0 }
}

fn proof_of(tree: &AirdropMerkleTree, id: [u8; 32]) -> Vec<[u8; 32]> {
    tree.tree_nodes.iter().find(|n| n.claimant == id).unwrap().proof.clone().unwrap()
}

fn new_claim_ctx(d: MerkleDistributor, vault_amount: u64, id: [u8; 32]) -> NewClaim {
    NewClaim { distributor: d, from: vault(vault_amount), to: wallet(id), claimant: id }
}

/// Distribution with A's first claim done.
fn after_claim_a() -> (AirdropMerkleTree, NewClaim, ClaimStatusStore) {
    let t = tree();
    let mut ctx = new_claim_ctx(distributor(&t), t.max_total_claim, A);
    let mut claims = ClaimStatusStore::new();
    handle_new_claim(&mut ctx, &mut claims, 1000, 500, proof_of(&t, A)).unwrap();
    (t, ctx, claims)
}

fn locked_ctx(from: &NewClaim) -> ClaimLocked {
    ClaimLocked { distributor: from.distributor, from: from.from, to: from.to, claimant: from.claimant }
}

#[test]
fn new_claim_pays_unlocked_and_creates_record() {
    let (_, ctx, claims) = after_claim_a();
    assert_eq!(ctx.to.amount, 1000);
    assert_eq!(ctx.from.amount, 4800 - 1000);
    assert_eq!(ctx.distributor.total_amount_claimed, 1000);
    assert_eq!(ctx.distributor.num_nodes_claimed, 1);
    let record = claims.get(&A).unwrap();
    assert_eq!(record, ClaimStatus { claimant: A, locked_amount: 500, locked_amount_withdrawn: 0, unlocked_amount: 1000 });
}

#[test]
fn claim_locked_at_end_pays_all_locked() {
    let (_, ctx, mut claims) = after_claim_a();
    let mut lctx = locked_ctx(&ctx);
    handle_claim_locked(&mut lctx, &mut claims, END).unwrap();
    assert_eq!(lctx.to.amount, 1500);
    assert_eq!(lctx.distributor.total_amount_claimed, 1500);
    assert_eq!(claims.get(&A).unwrap().locked_amount_withdrawn, 500);
    let before = lctx;
    assert_eq!(handle_claim_locked(&mut lctx, &mut claims, END + 10), Err(ErrorCode::InsufficientUnlockedTokens));
    assert_eq!(lctx.to.amount, before.to.amount);
}

#[test]
fn claim_locked_before_start_fails_without_change() {
    let (_, ctx, mut claims) = after_claim_a();
    let mut lctx = locked_ctx(&ctx);
    assert_eq!(handle_claim_locked(&mut lctx, &mut claims, START - 1), Err(ErrorCode::InsufficientUnlockedTokens));
    assert_eq!(lctx.distributor, ctx.distributor);
    assert_eq!(lctx.to.amount, 1000);
    assert_eq!(claims.get(&A).unwrap().locked_amount_withdrawn, 0);
}

#[test]
fn claim_locked_midway_pays_vested_part() {
    let (_, ctx, mut claims) = after_claim_a();
    let mut lctx = locked_ctx(&ctx);
    handle_claim_locked(&mut lctx, &mut claims, START + 300).unwrap();
    assert_eq!(lctx.to.amount, 1000 + 150);
    handle_claim_locked(&mut lctx, &mut claims, START + 500).unwrap();
    assert_eq!(lctx.to.amount, 1000 + 250);
    assert_eq!(claims.get(&A).unwrap().locked_amount_withdrawn, 250);
    assert_eq!(lctx.distributor.total_amount_claimed, 1250);
}

#[test]
fn corrupted_proof_is_rejected_without_change() {
    let t = tree();
    let mut ctx = new_claim_ctx(distributor(&t), t.max_total_claim, A);
    let mut claims = ClaimStatusStore::new();
    let mut proof = proof_of(&t, A);
    proof[0][0] ^= 0xff;
    let before = ctx;
    assert_eq!(handle_new_claim(&mut ctx, &mut claims, 1000, 500, proof), Err(ErrorCode::InvalidProof));
    assert_eq!(ctx.distributor.num_nodes_claimed, 0);
    assert_eq!(ctx.distributor.total_amount_claimed, 0);
    assert_eq!(ctx.from, before.from);
    assert_eq!(ctx.to, before.to);
    assert!(claims.get(&A).is_none());
}

#[test]
fn wrong_amounts_are_rejected() {
    let t = tree();
    let mut ctx = new_claim_ctx(distributor(&t), t.max_total_claim, A);
    let mut claims = ClaimStatusStore::new();
    assert_eq!(handle_new_claim(&mut ctx, &mut claims, 1001, 500, proof_of(&t, A)), Err(ErrorCode::InvalidProof));
}

#[test]
fn second_new_claim_fails_and_changes_nothing() {
    let (t, mut ctx, mut claims) = after_claim_a();
    let before = ctx;
    assert_eq!(handle_new_claim(&mut ctx, &mut claims, 1000, 500, proof_of(&t, A)), Err(ErrorCode::AlreadyClaimed));
    assert_eq!(ctx.distributor, before.distributor);
    assert_eq!(ctx.from, before.from);
    assert_eq!(ctx.to, before.to);
}

#[test]
fn clawback_then_new_claim_expires() {
    let (t, ctx, mut claims) = after_claim_a();
    let mut cctx = Clawback { distributor: ctx.distributor, from: ctx.from, to: wallet(RECEIVER), signer: ADMIN };
    cctx.to.address = RECEIVER;
    handle_clawback(&mut cctx, CLAWBACK).unwrap();
    assert!(cctx.distributor.clawed_back);
    assert_eq!(cctx.from.amount, 0);
    assert_eq!(cctx.to.amount, 3800);
    let mut nctx = NewClaim { distributor: cctx.distributor, from: cctx.from, to: wallet(C), claimant: C };
    assert_eq!(handle_new_claim(&mut nctx, &mut claims, 300, 0, proof_of(&t, C)), Err(ErrorCode::ClaimExpired));
    let mut lctx = ClaimLocked { distributor: cctx.distributor, from: cctx.from, to: ctx.to, claimant: A };
    assert_eq!(handle_claim_locked(&mut lctx, &mut claims, END), Err(ErrorCode::ClaimExpired));
    assert_eq!(handle_clawback(&mut cctx, CLAWBACK), Err(ErrorCode::ClawbackAlreadyClaimed));
}

#[test]
fn clawback_checks_admin_receiver_and_time() {
    let t = tree();
    let d = distributor(&t);
    let mut receiver = wallet(RECEIVER);
    receiver.address = RECEIVER;
    let mut cctx = Clawback { distributor: d, from: vault(10), to: receiver, signer: A };
    assert_eq!(handle_clawback(&mut cctx, CLAWBACK), Err(ErrorCode::Unauthorized));
    cctx.signer = ADMIN;
    assert_eq!(handle_clawback(&mut cctx, CLAWBACK - 1), Err(ErrorCode::ClawbackBeforeStart));
    cctx.to.address = B;
    assert_eq!(handle_clawback(&mut cctx, CLAWBACK), Err(ErrorCode::ClawbackReceiverMismatch));
    assert!(!cctx.distributor.clawed_back);
}

#[test]
fn owner_mismatch_is_rejected() {
    let t = tree();
    let mut ctx = new_claim_ctx(distributor(&t), t.max_total_claim, A);
    ctx.to.owner = B;
    let mut claims = ClaimStatusStore::new();
    assert_eq!(handle_new_claim(&mut ctx, &mut claims, 1000, 500, proof_of(&t, A)), Err(ErrorCode::OwnerMismatch));
}

#[test]
fn max_nodes_exceeded_is_rejected() {
    let t = tree();
    let mut d = distributor(&t);
    d.num_nodes_claimed = d.max_num_nodes;
    let mut ctx = new_claim_ctx(d, t.max_total_claim, A);
    let mut claims = ClaimStatusStore::new();
    assert_eq!(handle_new_claim(&mut ctx, &mut claims, 1000, 500, proof_of(&t, A)), Err(ErrorCode::MaxNodesExceeded));
    ctx.distributor.num_nodes_claimed = u64::MAX;
    assert_eq!(handle_new_claim(&mut ctx, &mut claims, 1000, 500, proof_of(&t, A)), Err(ErrorCode::ArithmeticError));
}

#[test]
fn exceeded_max_claim_is_rejected() {
    let t = tree();
    let mut d = distributor(&t);
    d.total_amount_claimed = d.max_total_claim - 999;
    let mut ctx = new_claim_ctx(d, t.max_total_claim, A);
    let mut claims = ClaimStatusStore::new();
    assert_eq!(handle_new_claim(&mut ctx, &mut claims, 1000, 500, proof_of(&t, A)), Err(ErrorCode::ExceededMaxClaim));
    assert!(claims.get(&A).is_none());
}

#[test]
fn insufficient_vault_is_rejected() {
    let t = tree();
    let mut ctx = new_claim_ctx(distributor(&t), 999, A);
    let mut claims = ClaimStatusStore::new();
    assert_eq!(
        handle_new_claim(&mut ctx, &mut claims, 1000, 500, proof_of(&t, A)),
        Err(ErrorCode::InsufficientUnlockedTokens)
    );
}

#[test]
fn claim_locked_without_record_expires() {
    let t = tree();
    let d = distributor(&t);
    let mut claims = ClaimStatusStore::new();
    let mut lctx = ClaimLocked { distributor: d, from: vault(100), to: wallet(B), claimant: B };
    assert_eq!(handle_claim_locked(&mut lctx, &mut claims, END), Err(ErrorCode::ClaimExpired));
}

#[test]
fn counters_stay_within_bounds_over_a_sequence() {
    let t = tree();
    let mut claims = ClaimStatusStore::new();
    let mut d = distributor(&t);
    let mut vault_amount = t.max_total_claim;
    for (id, unlocked, locked) in [(A, 1000u64, 500u64), (B, 2000, 1000), (C, 300, 0)] {
        let mut ctx = new_claim_ctx(d, vault_amount, id);
        handle_new_claim(&mut ctx, &mut claims, unlocked, locked, proof_of(&t, id)).unwrap();
        d = ctx.distributor;
        vault_amount = ctx.from.amount;
        assert!(d.total_amount_claimed <= d.max_total_claim);
        assert!(d.num_nodes_claimed <= d.max_num_nodes);
    }
    for (id, now) in [(A, START + 100), (B, START + 700), (A, END), (B, END + 5)] {
        let mut lctx = ClaimLocked { distributor: d, from: vault(vault_amount), to: wallet(id), claimant: id };
        handle_claim_locked(&mut lctx, &mut claims, now).unwrap();
        d = lctx.distributor;
        vault_amount = lctx.from.amount;
        assert!(d.total_amount_claimed <= d.max_total_claim);
    }
    assert_eq!(d.total_amount_claimed, d.max_total_claim);
    assert_eq!(vault_amount, 0);
    assert_eq!(d.num_nodes_claimed, 3);
}

#[test]
fn new_distributor_validates_schedule() {
    let t = tree();
    let r = new_distributor(0, t.merkle_root, 1, 1, END, START, CLAWBACK, MINT, VAULT, RECEIVER, ADMIN);
    assert_eq!(r.err(), Some(ErrorCode::StartTimestampAfterEnd));
    let r = new_distributor(0, t.merkle_root, 1, 1, START, END, END + 86_399, MINT, VAULT, RECEIVER, ADMIN);
    assert_eq!(r.err(), Some(ErrorCode::InsufficientClawbackDelay));
    let d = new_distributor(3, t.merkle_root, 4, 5, START, END, END + 86_400, MINT, VAULT, RECEIVER, ADMIN).unwrap();
    assert_eq!(d.version, 3);
    assert_eq!(d.total_amount_claimed, 0);
    assert_eq!(d.num_nodes_claimed, 0);
    assert!(!d.clawed_back);
}

#[test]
fn set_admin_rules() {
    let t = tree();
    let mut d = distributor(&t);
    assert_eq!(handle_set_admin(&mut d, &A, &B), Err(ErrorCode::Unauthorized));
    assert_eq!(handle_set_admin(&mut d, &ADMIN, &ADMIN), Err(ErrorCode::SameAdmin));
    assert_eq!(handle_set_admin(&mut d, &ADMIN, &B), Ok(()));
    assert_eq!(d.admin, B);
}

#[test]
fn existing_distributor_parameters_are_compared() {
    let t = tree();
    let d = distributor(&t);
    let args = NewDistributorArgs {
        clawback_receiver_token_account: RECEIVER,
        start_vesting_ts: START,
        end_vesting_ts: END,
        merkle_tree_path: String::from("tree.json"),
        clawback_start_ts: CLAWBACK,
    };
    assert_eq!(check_distributor_onchain_matches(&d, &t, &args, ADMIN), Ok(()));
    assert_eq!(check_distributor_onchain_matches(&d, &t, &args, A), Err(DistributorMismatch::Admin));
    let mut other = d;
    other.root[0] ^= 1;
    let r = check_distributor_onchain_matches(&other, &t, &args, ADMIN);
    assert_eq!(r, Err(DistributorMismatch::Root));
    assert_eq!(r.unwrap_err().message(), "root mismatch");
    let late = NewDistributorArgs { end_vesting_ts: END + 1, ..args };
    assert_eq!(check_distributor_onchain_matches(&d, &t, &late, ADMIN), Err(DistributorMismatch::EndTs));
}

#[test]
fn every_parameter_mismatch_is_named() {
    let t = tree();
    let d = distributor(&t);
    let args = NewDistributorArgs {
        clawback_receiver_token_account: RECEIVER,
        start_vesting_ts: START,
        end_vesting_ts: END,
        merkle_tree_path: String::from("tree.json"),
        clawback_start_ts: CLAWBACK,
    };
    let check = |d: &MerkleDistributor| check_distributor_onchain_matches(d, &t, &args, ADMIN).unwrap_err();
    let mut x = d;
    x.max_total_claim += 1;
    assert_eq!(check(&x), DistributorMismatch::MaxTotalClaim);
    assert_eq!(check(&x).message(), "max_total_claim mismatch");
    let mut x = d;
    x.max_num_nodes += 1;
    assert_eq!(check(&x), DistributorMismatch::MaxNumNodes);
    let mut x = d;
    x.start_ts += 1;
    assert_eq!(check(&x), DistributorMismatch::StartTs);
    let mut x = d;
    x.clawback_start_ts += 1;
    assert_eq!(check(&x), DistributorMismatch::ClawbackStartTs);
    let mut x = d;
    x.clawback_receiver = A;
    assert_eq!(check(&x), DistributorMismatch::ClawbackReceiver);
    assert_eq!(check(&x).message(), "clawback_receiver mismatch");
}

#[test]
fn claim_locked_owner_and_overflow_errors() {
    let (_, ctx, mut claims) = after_claim_a();
    let mut lctx = locked_ctx(&ctx);
    lctx.to.owner = B;
    assert_eq!(handle_claim_locked(&mut lctx, &mut claims, END), Err(ErrorCode::OwnerMismatch));
    let mut lctx = locked_ctx(&ctx);
    lctx.to.amount = u64::MAX;
    assert_eq!(handle_claim_locked(&mut lctx, &mut claims, END), Err(ErrorCode::ArithmeticError));
    let mut lctx = locked_ctx(&ctx);
    lctx.from.amount = 499;
    assert_eq!(handle_claim_locked(&mut lctx, &mut claims, END), Err(ErrorCode::InsufficientUnlockedTokens));
    let mut lctx = locked_ctx(&ctx);
    lctx.distributor.max_total_claim = 1499;
    assert_eq!(handle_claim_locked(&mut lctx, &mut claims, END), Err(ErrorCode::ExceededMaxClaim));
    assert_eq!(claims.get(&A).unwrap().locked_amount_withdrawn, 0);
}

#[test]
fn clawback_overflow_is_rejected() {
    let t = tree();
    let mut receiver = wallet(RECEIVER);
    receiver.address = RECEIVER;
    receiver.amount = u64::MAX;
    let mut cctx = Clawback { distributor: distributor(&t), from: vault(1), to: receiver, signer: ADMIN };
    assert_eq!(handle_clawback(&mut cctx, CLAWBACK), Err(ErrorCode::ArithmeticError));
    assert!(!cctx.distributor.clawed_back);
}

#[test]
fn claim_store_keeps_one_record_per_claimant() {
    let mut claims = ClaimStatusStore::new();
    let a = ClaimStatus { claimant: A, locked_amount: 5, locked_amount_withdrawn: 0, unlocked_amount: 1 };
    assert!(claims.insert_new(a));
    assert!(!claims.insert_new(ClaimStatus { unlocked_amount: 9, ..a }));
    assert_eq!(claims.get(&A), Some(a));
    claims.update(ClaimStatus { locked_amount_withdrawn: 3, ..a });
    assert_eq!(claims.get(&A).unwrap().locked_amount_withdrawn, 3);
    assert_eq!(claims.get(&B), None);
}
