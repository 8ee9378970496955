use merkle_distributor::pda::{get_claim_status_pda, get_merkle_distributor_pda};

const PROGRAM_ID: [u8; 32] = [5; 32];

#[test]
fn test_pda_derivation() {
    let mint = [7u8; 32];
    let claimant = [1u8; 32];
    let version = 0u64;
    let (distributor_pda, _bump) = get_merkle_distributor_pda(&PROGRAM_ID, &mint, version).unwrap();
    let (claim_status_pda, _bump) = get_claim_status_pda(&PROGRAM_ID, &claimant, &distributor_pda).unwrap();
    assert_ne!(distributor_pda, claim_status_pda);
}

#[test]
fn distributor_address_matches_reference() {
    let expected: [u8; 32] = [
        113, 254, 253, 25, 53, 64, 120, 174, 48, 97, 120, 169, 231, 234, 8, 50, 8, 82, 104, 39, 179, 65, 4, 35, 54,
        182, 94, 117, 146, 0, 205, 110,
    ];
    assert_eq!(get_merkle_distributor_pda(&PROGRAM_ID, &[7; 32], 0), Some((expected, 255)));
}

#[test]
fn addresses_depend_on_every_seed() {
    let a = get_merkle_distributor_pda(&PROGRAM_ID, &[7; 32], 0).unwrap();
    assert_eq!(get_merkle_distributor_pda(&PROGRAM_ID, &[7; 32], 0).unwrap(), a);
    assert_ne!(get_merkle_distributor_pda(&PROGRAM_ID, &[7; 32], 1).unwrap().0, a.0);
    assert_ne!(get_merkle_distributor_pda(&PROGRAM_ID, &[8; 32], 0).unwrap().0, a.0);
    let c1 = get_claim_status_pda(&PROGRAM_ID, &[1; 32], &a.0).unwrap();
    let c2 = get_claim_status_pda(&PROGRAM_ID, &[2; 32], &a.0).unwrap();
    assert_ne!(c1.0, c2.0);
}
