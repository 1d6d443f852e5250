use base64::Engine;
use merkle::prover::{gen_merkle_proof, run, ProofError};
use merkle::tree::{compute_height, merkle_root};
use sha2::{Digest, Sha256};

fn sha_leaf(value: &str) -> [u8; 32] {
    let mut hasher = Sha256::new();
    hasher.update(value.as_bytes());
    hasher.finalize().into()
}

fn sha_node(left: [u8; 32], right: [u8; 32]) -> [u8; 32] {
    let mut hasher = Sha256::new();
    hasher.update(left);
    hasher.update(right);
    hasher.finalize().into()
}

fn data_items(n: usize) -> Vec<String> {
    (0..n).map(|i| format!("data item {}", i)).collect()
}

fn recombine(leaf_digest: [u8; 32], siblings: &[[u8; 32]], mut pos: usize) -> [u8; 32] {
    let mut current = leaf_digest;
    for sibling in siblings {
        current = if pos % 2 == 0 {
            sha_node(current, *sibling)
        } else {
            sha_node(*sibling, current)
        };
        pos /= 2;
    }
    current
}

#[test]
fn scenario_two_leaves_position_zero() {
    let leaves = data_items(2);
    let proof = gen_merkle_proof(leaves.clone(), 0);
    assert_eq!(proof.len(), 1);
    assert_eq!(proof[0], sha_leaf("data item 1"));
    let root = merkle_root(&leaves);
    assert_eq!(root, sha_node(sha_leaf("data item 0"), sha_leaf("data item 1")));
}

#[test]
fn scenario_three_leaves_position_two() {
    let leaves = data_items(3);
    let proof = gen_merkle_proof(leaves, 2);
    assert_eq!(proof.len(), 2);
    assert_eq!(proof[0], [0u8; 32]);
    assert_eq!(proof[1], sha_node(sha_leaf("data item 0"), sha_leaf("data item 1")));
}

#[test]
fn scenario_single_leaf() {
    let leaves = vec!["only item".to_string()];
    let proof = gen_merkle_proof(leaves.clone(), 0);
    assert!(proof.is_empty());
    let root = merkle_root(&leaves);
    assert_eq!(root, sha_leaf("only item"));
}

#[test]
fn determinism_repeated_runs() {
    let leaves = data_items(7);
    let first = gen_merkle_proof(leaves.clone(), 4);
    let second = gen_merkle_proof(leaves, 4);
    assert_eq!(first, second);
}

#[test]
fn proof_length_is_ceil_log2() {
    for n in 1..=17usize {
        // the least h with n <= 2^h
        let mut expected: u32 = 0;
        while (1usize << expected) < n {
            expected += 1;
        }
        let leaves = data_items(n);
        let proof = gen_merkle_proof(leaves, n - 1);
        assert_eq!(proof.len(), expected as usize, "leaf count {}", n);
        assert_eq!(compute_height(n), expected as usize);
    }
}

#[test]
fn round_trip_reproduces_root() {
    for n in [1usize, 2, 3, 4, 5, 6, 7, 8, 13] {
        let leaves = data_items(n);
        let root = merkle_root(&leaves);
        for pos in 0..n {
            let proof = gen_merkle_proof(leaves.clone(), pos);
            let leaf_digest = sha_leaf(&leaves[pos]);
            assert_eq!(recombine(leaf_digest, &proof, pos), root, "n {} pos {}", n, pos);
        }
    }
}

#[test]
fn padding_invariance_equal_sequences() {
    let first = data_items(5);
    let second: Vec<String> = (0..5).map(|i| format!("data item {}", i)).collect();
    assert_eq!(gen_merkle_proof(first, 3), gen_merkle_proof(second, 3));
}

#[test]
fn out_of_range_position_is_rejected() {
    let leaves = data_items(4);
    let result = run(leaves.clone(), 4);
    assert_eq!(result.err().unwrap(), ProofError::PositionOutOfRange);
    let far = run(leaves, usize::MAX);
    assert_eq!(far.err().unwrap(), ProofError::PositionOutOfRange);
}

#[test]
fn empty_leaf_sequence_is_rejected() {
    let result = run(Vec::new(), 0);
    assert_eq!(result.err().unwrap(), ProofError::EmptyLeafSequence);
}

#[test]
fn record_holds_position_value_and_encoded_siblings() {
    let leaves = data_items(6);
    let record = run(leaves.clone(), 5).unwrap();
    assert_eq!(record.leaf_position, 5);
    assert_eq!(record.leaf_value, "data item 5");
    assert!(record.proof_hash_values.is_none());
    let digests = gen_merkle_proof(leaves, 5);
    let expected: Vec<String> = digests
        .iter()
        .map(|d| base64::engine::general_purpose::STANDARD.encode(d))
        .collect();
    assert_eq!(record.proof_hash_values_base64, expected);
}

#[test]
fn thousand_leaves_matches_original_scale() {
    let leaves = data_items(1000);
    let record = run(leaves.clone(), 123).unwrap();
    assert_eq!(record.proof_hash_values_base64.len(), 10);
    assert_eq!(record.leaf_value, "data item 123");
    let digests = gen_merkle_proof(leaves.clone(), 123);
    let root = merkle_root(&leaves);
    assert_eq!(recombine(sha_leaf("data item 123"), &digests, 123), root);
}
