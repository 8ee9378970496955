//! Addresses derived from a program and seeds: the distributor's, per mint and
//! version, and each claimant's claim record's, per distributor.
use vstd::prelude::*;
use vstd::string::StringSliceAdditionalSpecFns;

use crate::airdrop::Pubkey;
use crate::csv::views;
use crate::hash::{le_bytes, push_hash, push_le_u64};

verus! {

/// The program-derived address of `program_id` for `seeds`, with its bump
/// seed, if one exists.
pub uninterp spec fn program_address_of(seeds: Seq<Seq<u8>>, program_id: Seq<u8>) -> Option<([u8; 32], u8)>;

/// Relies on `solana_program::pubkey::Pubkey::try_find_program_address`: the
/// first address off the curve found for the seeds and a bump seed, trying
/// bump seeds from 255 downward, or `None` when there is none or the seeds
/// are too many or too long.
#[verifier::external_body]
fn find_program_address(seeds: &Vec<Vec<u8>>, program_id: &Pubkey) -> (r: Option<(Pubkey, u8)>)
    ensures
        r == program_address_of(views(seeds@), program_id@),
{
    let slices: Vec<&[u8]> = seeds.iter().map(|s| s.as_slice()).collect();
    let program = solana_program::pubkey::Pubkey::new_from_array(*program_id);
    solana_program::pubkey::Pubkey::try_find_program_address(&slices, &program).map(|(k, b)| (k.to_bytes(), b))
}

/// The bytes of a string.
fn string_bytes(s: &str) -> (r: Vec<u8>)
    ensures
        r@ == s.spec_bytes(),
{
    let b = s.as_bytes();
    let mut out: Vec<u8> = Vec::new();
    let mut i: usize = 0;
    while i < b.len()
        invariant
            b@ == s.spec_bytes(),
            i <= b@.len(),
            out@ =~= b@.subrange(0, i as int),
        decreases b@.len() - i,
    {
        out.push(b[i]);
        i = i + 1;
    }
    assert(out@ =~= b@);
    out
}

/// The seeds of a distributor's address: its tag, the mint and the version.
pub open spec fn distributor_seeds(mint: Pubkey, version: u64) -> Seq<Seq<u8>> {
    seq!["MerkleDistributor".spec_bytes(), mint@, le_bytes(version as nat, 8)]
}

/// The seeds of a claim record's address: its tag, the claimant and the distributor.
pub open spec fn claim_status_seeds(claimant: Pubkey, distributor: Pubkey) -> Seq<Seq<u8>> {
    seq!["ClaimStatus".spec_bytes(), claimant@, distributor@]
}

/// The address of the distributor of `mint` with version `version`.
pub fn get_merkle_distributor_pda(program_id: &Pubkey, mint: &Pubkey, version: u64) -> (r: Option<(Pubkey, u8)>)
    ensures
        r == program_address_of(distributor_seeds(*mint, version), program_id@),
{
    let mut mint_bytes: Vec<u8> = Vec::new();
    push_hash(&mut mint_bytes, mint);
    let mut version_bytes: Vec<u8> = Vec::new();
    push_le_u64(&mut version_bytes, version);
    let mut seeds: Vec<Vec<u8>> = Vec::new();
    seeds.push(string_bytes("MerkleDistributor"));
    seeds.push(mint_bytes);
    seeds.push(version_bytes);
    assert(views(seeds@) =~= distributor_seeds(*mint, version));
    find_program_address(&seeds, program_id)
}

/// The address of `claimant`'s claim record under `distributor`: the key that
/// makes a claimant's record unique.
pub fn get_claim_status_pda(program_id: &Pubkey, claimant: &Pubkey, distributor: &Pubkey) -> (r: Option<(Pubkey, u8)>)
    ensures
        r == program_address_of(claim_status_seeds(*claimant, *distributor), program_id@),
{
    let mut claimant_bytes: Vec<u8> = Vec::new();
    push_hash(&mut claimant_bytes, claimant);
    let mut distributor_bytes: Vec<u8> = Vec::new();
    push_hash(&mut distributor_bytes, distributor);
    let mut seeds: Vec<Vec<u8>> = Vec::new();
    seeds.push(string_bytes("ClaimStatus"));
    seeds.push(claimant_bytes);
    seeds.push(distributor_bytes);
    assert(views(seeds@) =~= claim_status_seeds(*claimant, *distributor));
    find_program_address(&seeds, program_id)
}

} // verus!
