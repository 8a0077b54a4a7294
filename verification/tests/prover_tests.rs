use merkle::hashing::{hash_eq, hash_internal, hash_leaf};
use merkle::leaves::gen_leaves_for_merkle_tree;
use merkle::prover::{build_proof, gen_merkle_proof, run, verify_proof, MerkleError};
use sha2::{Digest, Sha256};

fn sha(bytes: &[u8]) -> [u8; 32] {
    Sha256::digest(bytes).into()
}

fn items_of(n: usize) -> Vec<Vec<u8>> {
    (0..n).map(|i| format!("item {}", i).into_bytes()).collect()
}

/// Reduce a padded level with plain sha2 calls, independent of the library.
fn reference_root(mut level: Vec<[u8; 32]>) -> [u8; 32] {
    while level.len() > 1 {
        let mut next = Vec::new();
        for pair in level.chunks(2) {
            let mut buf = Vec::new();
            buf.extend_from_slice(&pair[0]);
            buf.extend_from_slice(&pair[1]);
            next.push(sha(&buf));
        }
        level = next;
    }
    level[0]
}

#[test]
fn path_length_is_ceil_log2() {
    let expected = [0usize, 1, 2, 2, 3, 3, 3, 3, 4];
    for n in 1..=9usize {
        let proof = build_proof(items_of(n), 0).unwrap();
        assert_eq!(proof.proof_path.len(), expected[n - 1], "n = {}", n);
    }
}

#[test]
fn round_trip_reproduces_root() {
    for n in 1..=8usize {
        for pos in 0..n {
            let items = items_of(n);
            let proof = build_proof(items.clone(), pos).unwrap();
            assert!(verify_proof(&items[pos], pos, &proof.proof_path, &proof.root));
        }
    }
}

#[test]
fn round_trip_rejects_altered_leaf() {
    let items = items_of(6);
    let proof = build_proof(items.clone(), 4).unwrap();
    let mut altered = items[4].clone();
    altered[0] ^= 1;
    assert!(!verify_proof(&altered, 4, &proof.proof_path, &proof.root));
}

#[test]
fn single_leaf_has_empty_path_and_leaf_root() {
    let items = vec![b"only".to_vec()];
    let proof = build_proof(items.clone(), 0).unwrap();
    assert!(proof.proof_path.is_empty());
    assert_eq!(proof.root, hash_leaf(&items[0]));
    assert!(verify_proof(&items[0], 0, &proof.proof_path, &proof.root));
}

#[test]
fn five_items_pad_to_eight_with_zero_hashes() {
    let items = items_of(5);
    let proof = build_proof(items.clone(), 2).unwrap();
    // height 3, padded length 8
    assert_eq!(proof.proof_path.len(), 3);
    // the root must match a reference reduction over the five leaf hashes
    // padded with three all-zero values
    let mut level: Vec<[u8; 32]> = items.iter().map(|i| sha(i)).collect();
    while level.len() < 8 {
        level.push([0u8; 32]);
    }
    assert_eq!(proof.root, reference_root(level));
}

#[test]
fn padding_positions_are_rejected() {
    let items = items_of(5);
    for pos in 5..8usize {
        assert_eq!(build_proof(items.clone(), pos), Err(MerkleError::InvalidPosition));
    }
}

#[test]
fn empty_input_is_rejected() {
    assert_eq!(build_proof(Vec::new(), 0), Err(MerkleError::EmptyInput));
}

#[test]
fn sibling_unaffected_by_padding_amount() {
    // five items pad to eight, six items pad to eight with one pad fewer;
    // the level-0 sibling of position 2 is item 3 in both trees
    let five = items_of(5);
    let mut six = items_of(5);
    six.push(b"extra".to_vec());
    let path_five = gen_merkle_proof(five, 2);
    let path_six = gen_merkle_proof(six, 2);
    assert_eq!(path_five[0], path_six[0]);
    assert_eq!(path_five[0], sha(&items_of(5)[3]));
}

#[test]
fn identical_inputs_give_identical_proofs() {
    let a = build_proof(items_of(7), 3).unwrap();
    let b = build_proof(items_of(7), 3).unwrap();
    assert_eq!(a.proof_path, b.proof_path);
    assert_eq!(a.root, b.root);
    let r1 = run(2, 6);
    let r2 = run(2, 6);
    assert_eq!(r1, r2);
}

#[test]
fn example_three_items_position_one() {
    let items: Vec<Vec<u8>> =
        vec![b"data item 0".to_vec(), b"data item 1".to_vec(), b"data item 2".to_vec()];
    let proof = build_proof(items.clone(), 1).unwrap();
    // height 2, padded length 4, one zero-hash pad at index 3
    assert_eq!(proof.proof_path.len(), 2);
    // level-0 sibling: the hash of items[0]
    assert_eq!(proof.proof_path[0], sha(b"data item 0"));
    // level-1 sibling: the parent of the hashes of items[2] and the padding
    let mut buf = Vec::new();
    buf.extend_from_slice(&sha(b"data item 2"));
    buf.extend_from_slice(&[0u8; 32]);
    assert_eq!(proof.proof_path[1], sha(&buf));
    // verifying against the returned root succeeds
    assert!(verify_proof(&items[1], 1, &proof.proof_path, &proof.root));
    // and fails once a single byte of the leaf is altered
    let mut altered = items[1].clone();
    altered[10] ^= 0x20;
    assert!(!verify_proof(&altered, 1, &proof.proof_path, &proof.root));
}

#[test]
fn run_assembles_the_record() {
    let record = run(1, 3);
    assert_eq!(record.leaf_position, 1);
    assert_eq!(record.leaf_value, b"data item 1".to_vec());
    assert_eq!(record.proof_path.len(), 2);
    let leaves = gen_leaves_for_merkle_tree(3);
    let again = build_proof(leaves, 1).unwrap();
    assert_eq!(record, again);
}

#[test]
fn run_matches_example_path() {
    let record = run(1, 3);
    assert_eq!(record.proof_path[0], sha(b"data item 0"));
    assert!(verify_proof(&record.leaf_value, 1, &record.proof_path, &record.root));
}

#[test]
fn verify_rejects_wrong_root() {
    let items = items_of(4);
    let proof = build_proof(items.clone(), 1).unwrap();
    let mut wrong = proof.root;
    wrong[31] ^= 0xff;
    assert!(!verify_proof(&items[1], 1, &proof.proof_path, &wrong));
    assert!(!hash_eq(&proof.root, &wrong));
    assert!(hash_eq(&proof.root, &proof.root));
}

#[test]
fn verify_uses_position_orientation() {
    // swapping the position changes the left/right orientation, so the fold
    // no longer reproduces the root
    let items = items_of(2);
    let proof = build_proof(items.clone(), 0).unwrap();
    assert!(verify_proof(&items[0], 0, &proof.proof_path, &proof.root));
    assert!(!verify_proof(&items[0], 1, &proof.proof_path, &proof.root));
}

#[test]
fn internal_node_hash_is_ordered_concatenation() {
    let left = sha(b"left");
    let right = sha(b"right");
    let mut buf = Vec::new();
    buf.extend_from_slice(&left);
    buf.extend_from_slice(&right);
    assert_eq!(hash_internal(&left, &right), sha(&buf));
    assert_ne!(hash_internal(&left, &right), hash_internal(&right, &left));
}
