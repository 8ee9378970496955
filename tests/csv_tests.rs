use merkle_distributor::airdrop::{AirdropMerkleTree, MerkleTreeError};
use merkle_distributor::csv::{aggregate_entries, parse_csv, parse_decimal, split_bytes, AirdropCategory, CsvEntry, CsvError};
use merkle_distributor::merkle::{hash_leaf, verify};

const K1: &str = "GgBaCs3NCBuZN12kCJgAW63ydqohFkHEdfdEXBPzLHq";
const K2: &str = "8qbHbw2BbbTHBW1sbeqakYXVKRQM8Ne7pLK7m6CVfeR";
const HEADER: &str = "pubkey,amount_unlocked,amount_locked,category";

#[test]
fn csv_rows_are_parsed() {
    let text = format!("{HEADER}\n{K1},1000,500,Staker\r\n{K2},2000,1000,Validator\n");
    let entries = parse_csv(text.as_bytes()).unwrap();
    assert_eq!(
        entries,
        vec![
            CsvEntry { pubkey: [4; 32], amount_unlocked: 1000, amount_locked: 500, category: AirdropCategory::Staker },
            CsvEntry { pubkey: [2; 32], amount_unlocked: 2000, amount_locked: 1000, category: AirdropCategory::Validator },
        ]
    );
}

#[test]
fn csv_errors_are_reported() {
    assert_eq!(parse_csv(b"pubkey,amount\n").unwrap_err(), CsvError::MissingHeader);
    let bad_key = format!("{HEADER}\n{K1},1,2,Staker\nnot-a-key,1,2,Staker\n");
    assert_eq!(parse_csv(bad_key.as_bytes()).unwrap_err(), CsvError::InvalidRow(2));
    let bad_amount = format!("{HEADER}\n{K1},1x,2,Staker\n");
    assert_eq!(parse_csv(bad_amount.as_bytes()).unwrap_err(), CsvError::InvalidRow(1));
    let bad_category = format!("{HEADER}\n{K1},1,2,Miner\n");
    assert_eq!(parse_csv(bad_category.as_bytes()).unwrap_err(), CsvError::InvalidRow(1));
    let extra_field = format!("{HEADER}\n{K1},1,2,Staker,3\n");
    assert_eq!(parse_csv(extra_field.as_bytes()).unwrap_err(), CsvError::InvalidRow(1));
}

#[test]
fn rows_of_one_claimant_are_merged() {
    let text = format!(
        "{HEADER}\n{K1},1000,500,Staker\n{K2},7,8,Searcher\n{K1},5,6,Validator\n{K1},1,1,Staker\n"
    );
    let entries = parse_csv(text.as_bytes()).unwrap();
    let nodes = aggregate_entries(&entries).unwrap();
    assert_eq!(nodes.len(), 2);
    assert_eq!(nodes[0].claimant, [4; 32]);
    assert_eq!(nodes[0].total_unlocked_staker, 1001);
    assert_eq!(nodes[0].total_locked_staker, 501);
    assert_eq!(nodes[0].total_unlocked_validator, 5);
    assert_eq!(nodes[0].total_locked_validator, 6);
    assert_eq!(nodes[0].amount_unlocked(), 1006);
    assert_eq!(nodes[1].claimant, [2; 32]);
    assert_eq!(nodes[1].total_unlocked_searcher, 7);
    assert_eq!(nodes[1].total_locked_searcher, 8);
}

#[test]
fn per_category_overflow_is_reported() {
    let text = format!("{HEADER}\n{K1},18446744073709551615,0,Staker\n{K1},1,0,Staker\n");
    let entries = parse_csv(text.as_bytes()).unwrap();
    assert_eq!(aggregate_entries(&entries).unwrap_err(), CsvError::AmountOverflow);
}

#[test]
fn tree_from_csv_text() {
    let text = format!("{HEADER}\n{K1},1000,500,Staker\n{K2},2000,1000,Validator\n");
    let tree = AirdropMerkleTree::new_from_csv(text.as_bytes()).unwrap();
    assert_eq!(tree.max_total_claim, 4500);
    assert_eq!(tree.max_num_nodes, 2);
    let node = tree.get_node(&[2; 32]).unwrap();
    assert_eq!(node.amount_unlocked(), 2000);
    let leaf = hash_leaf(&node.claimant, 2000, 1000);
    assert!(verify(node.proof.as_ref().unwrap(), tree.merkle_root, leaf));
    assert!(tree.get_node(&[3; 32]).is_none());
    let empty = AirdropMerkleTree::new_from_csv(format!("{HEADER}\n").as_bytes());
    assert_eq!(empty.err(), Some(MerkleTreeError::EmptyTree));
    assert_eq!(AirdropMerkleTree::new_from_csv(b"").err(), Some(MerkleTreeError::Csv(CsvError::MissingHeader)));
}

#[test]
fn decimal_and_split_helpers() {
    assert_eq!(parse_decimal(&b"18446744073709551615".to_vec()), Some(u64::MAX));
    assert_eq!(parse_decimal(&b"18446744073709551616".to_vec()), None);
    assert_eq!(parse_decimal(&b"".to_vec()), None);
    assert_eq!(parse_decimal(&b"007".to_vec()), Some(7));
    assert_eq!(split_bytes(b"a,,b", b','), vec![b"a".to_vec(), vec![], b"b".to_vec()]);
}
