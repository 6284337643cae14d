use tokio_electrum::bdk::util::{
    format_index_ranges, log_loading_indexes, log_scan_range, push_range, validate_merkle_proof,
};
use tokio_electrum::electrum::types::TransactionMerkel;
use tokio_electrum::hash::Hash256;
use tokio_electrum::ordered::OrderedSet;

fn set(indexes: &[u32]) -> OrderedSet<u32> {
    let mut r = OrderedSet::new();
    for index in indexes {
        r.insert(*index);
    }
    r
}

#[test]
fn format_index_ranges_returns_none_for_empty_input() {
    let indexes = OrderedSet::new();
    assert_eq!(format_index_ranges(&indexes), None);
}

#[test]
fn format_index_ranges_dedups_sorts_and_compacts() {
    let indexes = set(&[11, 10, 8, 7, 5, 4, 4, 12]);
    assert_eq!(
        format_index_ranges(&indexes),
        Some("4-5, 7-8, 10-12".to_string())
    );
}

#[test]
fn format_index_ranges_handles_singletons() {
    let indexes = set(&[9, 2, 14]);
    assert_eq!(format_index_ranges(&indexes), Some("2, 9, 14".to_string()));
}

#[test]
fn ranges_reach_the_greatest_index() {
    let indexes = set(&[u32::MAX, u32::MAX - 1, 0]);
    assert_eq!(
        format_index_ranges(&indexes),
        Some("0, 4294967294-4294967295".to_string())
    );
}

#[test]
fn ranges_are_appended() {
    let mut text = String::new();
    push_range(&mut text, 3, 3);
    push_range(&mut text, 5, 9);
    assert_eq!(text, "3, 5-9");
}

#[test]
fn messages_about_loading() {
    assert_eq!(log_scan_range(7, 26), "Finding transactions [7-26]");
    assert_eq!(
        log_loading_indexes(&set(&[1, 2, 4])),
        Some("Loading transactions [1-2, 4]".to_string())
    );
    assert_eq!(log_loading_indexes(&set(&[])), None);
}

fn sha256d(left: &Hash256, right: &Hash256) -> Hash256 {
    let mut data = left.bytes.to_vec();
    data.extend_from_slice(&right.bytes);
    let hash = <bitcoin::hashes::sha256d::Hash as bitcoin::hashes::Hash>::hash(&data);
    Hash256::from_byte_array(bitcoin::hashes::Hash::to_byte_array(hash))
}

#[test]
fn merkle_proofs_are_held_against_the_root() {
    let leaf = |byte: u8| Hash256::from_byte_array([byte; 32]);
    let pair = sha256d(&leaf(1), &leaf(2));
    let other = sha256d(&leaf(3), &leaf(4));
    let root = sha256d(&pair, &other);
    let merkle = |pos: usize, branch: Vec<Hash256>| TransactionMerkel {
        block_height: 5,
        merkle: branch,
        pos,
    };
    assert!(validate_merkle_proof(&leaf(1), &root, &merkle(0, vec![leaf(2), other])));
    assert!(validate_merkle_proof(&leaf(2), &root, &merkle(1, vec![leaf(1), other])));
    assert!(validate_merkle_proof(&leaf(3), &root, &merkle(2, vec![leaf(4), pair])));
    assert!(validate_merkle_proof(&leaf(4), &root, &merkle(3, vec![leaf(3), pair])));
    assert!(!validate_merkle_proof(&leaf(1), &root, &merkle(1, vec![leaf(2), other])));
    assert!(!validate_merkle_proof(&leaf(5), &root, &merkle(0, vec![leaf(2), other])));
    assert!(!validate_merkle_proof(&leaf(1), &pair, &merkle(0, vec![leaf(2), other])));
    assert!(validate_merkle_proof(&leaf(9), &leaf(9), &merkle(0, vec![])));
}
