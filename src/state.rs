//! The durable records: the distributor's configuration and running totals,
//! the per-claimant claim records, and the store that keeps one record per claimant.
use vstd::prelude::*;

use crate::airdrop::Pubkey;
use crate::hash::Hash32;
use crate::vesting::{compute_withdrawable, withdrawable_amount};

verus! {

/// Why an operation on a distribution was rejected.
#[derive(Debug, PartialEq, Eq, Structural, Clone, Copy)]
pub enum ErrorCode {
    /// The distribution was clawed back, or the caller has no claim record.
    ClaimExpired,
    /// Nothing is withdrawable yet, or the vault holds too little.
    InsufficientUnlockedTokens,
    /// A counter or an amount would overflow.
    ArithmeticError,
    /// The running total would exceed the committed maximum.
    ExceededMaxClaim,
    /// More claimants than the tree holds would have claimed.
    MaxNodesExceeded,
    /// The merkle proof does not fold to the stored root.
    InvalidProof,
    /// The destination token account does not belong to the claimant.
    OwnerMismatch,
    /// The claimant already has a claim record.
    AlreadyClaimed,
    /// The signer is not the distributor's admin.
    Unauthorized,
    /// The clawback period has not started.
    ClawbackBeforeStart,
    /// The distribution was already clawed back.
    ClawbackAlreadyClaimed,
    /// The clawback destination is not the configured receiver.
    ClawbackReceiverMismatch,
    /// The new admin is the current one.
    SameAdmin,
    /// The vesting start is not before its end.
    StartTimestampAfterEnd,
    /// The clawback period starts too soon after the vesting end.
    InsufficientClawbackDelay,
}

/// The configuration and running totals of one distribution.
#[derive(Debug, PartialEq, Eq, Clone, Copy)]
pub struct MerkleDistributor {
    pub version: u64,
    pub root: Hash32,
    pub mint: Pubkey,
    pub token_vault: Pubkey,
    pub max_total_claim: u64,
    pub max_num_nodes: u64,
    pub total_amount_claimed: u64,
    pub num_nodes_claimed: u64,
    pub start_ts: i64,
    pub end_ts: i64,
    pub clawback_start_ts: i64,
    pub clawback_receiver: Pubkey,
    pub admin: Pubkey,
    pub clawed_back: bool,
}

impl MerkleDistributor {
    /// Neither running total has passed its bound.
    pub open spec fn within_bounds(&self) -> bool {
        &&& self.total_amount_claimed <= self.max_total_claim
        &&& self.num_nodes_claimed <= self.max_num_nodes
    }
}

/// What one claimant is owed and has withdrawn.
#[derive(Debug, PartialEq, Eq, Clone, Copy)]
pub struct ClaimStatus {
    pub claimant: Pubkey,
    pub locked_amount: u64,
    pub locked_amount_withdrawn: u64,
    pub unlocked_amount: u64,
}

impl ClaimStatus {
    /// Never more was withdrawn than was locked.
    pub open spec fn within_bounds(&self) -> bool {
        self.locked_amount_withdrawn <= self.locked_amount
    }

    /// What may be withdrawn at `curr_ts` under the schedule from `start_ts` to `end_ts`.
    pub open spec fn spec_amount_withdrawable(&self, curr_ts: i64, start_ts: i64, end_ts: i64) -> int {
        withdrawable_amount(curr_ts, start_ts, end_ts, self.locked_amount, self.locked_amount_withdrawn)
    }

    /// What may be withdrawn at `curr_ts` under the schedule from `start_ts` to `end_ts`.
    pub fn amount_withdrawable(&self, curr_ts: i64, start_ts: i64, end_ts: i64) -> (r: u64)
        ensures
            r == self.spec_amount_withdrawable(curr_ts, start_ts, end_ts),
    {
        compute_withdrawable(curr_ts, start_ts, end_ts, self.locked_amount, self.locked_amount_withdrawn)
    }
}

/// A token account: its address, the mint of its tokens, its owner and balance.
#[derive(Debug, PartialEq, Eq, Clone, Copy)]
pub struct TokenAccount {
    pub address: Pubkey,
    pub mint: Pubkey,
    pub owner: Pubkey,
    pub amount: u64,
}

/// The claim records of one distribution, at most one per claimant; adding a
/// record succeeds only where none exists yet.
pub struct ClaimStatusStore {
    records: Vec<ClaimStatus>,
}

impl View for ClaimStatusStore {
    type V = Map<Pubkey, ClaimStatus>;

    closed spec fn view(&self) -> Map<Pubkey, ClaimStatus> {
        let s = self.records@;
        Map::new(
            |k: Pubkey| exists|i: int| 0 <= i < s.len() && s[i].claimant == k,
            |k: Pubkey| s[choose|i: int| 0 <= i < s.len() && s[i].claimant == k],
        )
    }
}

impl ClaimStatusStore {
    /// No two records share a claimant.
    pub closed spec fn wf(&self) -> bool {
        forall|i: int, j: int|
            #![trigger self.records@[i], self.records@[j]]
            0 <= i < self.records@.len() && 0 <= j < self.records@.len() && self.records@[i].claimant
                == self.records@[j].claimant ==> i == j
    }

    /// A store with no record.
    pub fn new() -> (r: ClaimStatusStore)
        ensures
            r.wf(),
            r@ == Map::<Pubkey, ClaimStatus>::empty(),
    {
        let r = ClaimStatusStore { records: Vec::new() };
        assert(r@ =~= Map::<Pubkey, ClaimStatus>::empty());
        r
    }

    /// The position of `claimant`'s record, if it has one.
    fn find(&self, claimant: &Pubkey) -> (r: Option<usize>)
        requires
            self.wf(),
        ensures
            r is None ==> !self@.contains_key(*claimant),
            r matches Some(i) ==> i < self.records@.len() && self.records@[i as int].claimant == *claimant
                && self@.contains_key(*claimant) && self@[*claimant] == self.records@[i as int],
    {
        let mut i: usize = 0;
        while i < self.records.len()
            invariant
                self.wf(),
                i <= self.records@.len(),
                forall|j: int| 0 <= j < i ==> self.records@[j].claimant != *claimant,
            decreases self.records@.len() - i,
        {
            if crate::hash::hash_eq(&self.records[i].claimant, claimant) {
                proof {
                    let s = self.records@;
                    assert(s[i as int].claimant == *claimant);
                    assert(exists|c: int| 0 <= c < s.len() && s[c].claimant == *claimant);
                    let c = choose|c: int| 0 <= c < s.len() && s[c].claimant == *claimant;
                    assert(c == i);
                }
                return Some(i);
            }
            i = i + 1;
        }
        None
    }

    /// The record of `claimant`, if it has one.
    pub fn get(&self, claimant: &Pubkey) -> (r: Option<ClaimStatus>)
        requires
            self.wf(),
        ensures
            r == (if self@.contains_key(*claimant) {
                Some(self@[*claimant])
            } else {
                None::<ClaimStatus>
            }),
            r matches Some(st) ==> st.claimant == *claimant,
    {
        match self.find(claimant) {
            Some(i) => Some(self.records[i]),
            None => None,
        }
    }

    /// Adds `status` if its claimant has no record yet; reports whether it did.
    pub fn insert_new(&mut self, status: ClaimStatus) -> (r: bool)
        requires
            old(self).wf(),
        ensures
            final(self).wf(),
            r == !old(self)@.contains_key(status.claimant),
            r ==> final(self)@ == old(self)@.insert(status.claimant, status),
            !r ==> final(self)@ == old(self)@,
    {
        match self.find(&status.claimant) {
            Some(_) => false,
            None => {
                let ghost before = self.records@;
                self.records.push(status);
                proof {
                    let s = self.records@;
                    assert(s.len() == before.len() + 1);
                    assert forall|i: int| 0 <= i < before.len() implies #[trigger] s[i] == before[i] by {}
                    assert(forall|i: int| 0 <= i < before.len() ==> before[i].claimant != status.claimant);
                    assert forall|k: Pubkey|
                        #![trigger self@.contains_key(k)]
                        self@.contains_key(k) == old(self)@.insert(status.claimant, status).contains_key(k) by {
                        if k != status.claimant && self@.contains_key(k) {
                            let c = choose|c: int| 0 <= c < s.len() && s[c].claimant == k;
                            assert(before[c].claimant == k);
                        }
                        if k != status.claimant && old(self)@.contains_key(k) {
                            let c = choose|c: int| 0 <= c < before.len() && before[c].claimant == k;
                            assert(s[c].claimant == k);
                        }
                        if k == status.claimant {
                            assert(s[before.len() as int].claimant == k);
                        }
                    }
                    assert forall|k: Pubkey| #[trigger] self@.contains_key(k) implies self@[k] == old(
                        self,
                    )@.insert(status.claimant, status)[k] by {
                        let c = choose|c: int| 0 <= c < s.len() && s[c].claimant == k;
                        if k == status.claimant {
                            assert(s[before.len() as int].claimant == k);
                        } else {
                            let c2 = choose|c2: int| 0 <= c2 < before.len() && before[c2].claimant == k;
                            assert(s[c2].claimant == k);
                        }
                    }
                    assert(self@ =~= old(self)@.insert(status.claimant, status));
                }
                true
            },
        }
    }

    /// Replaces the record of a claimant that has one.
    pub fn update(&mut self, status: ClaimStatus)
        requires
            old(self).wf(),
            old(self)@.contains_key(status.claimant),
        ensures
            final(self).wf(),
            final(self)@ == old(self)@.insert(status.claimant, status),
    {
        match self.find(&status.claimant) {
            Some(i) => {
                let ghost before = self.records@;
                self.records.set(i, status);
                proof {
                    let s = self.records@;
                    assert forall|k: Pubkey|
                        #![trigger self@.contains_key(k)]
                        self@.contains_key(k) == old(self)@.insert(status.claimant, status).contains_key(k) by {
                        if self@.contains_key(k) {
                            let c = choose|c: int| 0 <= c < s.len() && s[c].claimant == k;
                            assert(before[c].claimant == k || c == i);
                        }
                        if old(self)@.contains_key(k) {
                            let c = choose|c: int| 0 <= c < before.len() && before[c].claimant == k;
                            assert(s[c].claimant == k);
                        }
                        if k == status.claimant {
                            assert(s[i as int].claimant == k);
                        }
                    }
                    assert forall|k: Pubkey| #[trigger] self@.contains_key(k) implies self@[k] == old(
                        self,
                    )@.insert(status.claimant, status)[k] by {
                        let c = choose|c: int| 0 <= c < s.len() && s[c].claimant == k;
                        if k == status.claimant {
                            assert(s[i as int].claimant == k);
                        } else {
                            let c2 = choose|c2: int| 0 <= c2 < before.len() && before[c2].claimant == k;
                            assert(c2 != i);
                            assert(s[c2].claimant == k);
                        }
                    }
                    assert(self@ =~= old(self)@.insert(status.claimant, status));
                }
            },
            None => {},
        }
    }
}

} // verus!
