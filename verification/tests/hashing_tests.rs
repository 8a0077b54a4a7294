use merkle::hashing::{hash_leaf, zero_hash_bytes};
use merkle::leaves::gen_leaves_for_merkle_tree;
use merkle::prover::build_proof;

#[test]
fn leaf_hash_is_sha256() {
    // the NIST test vector for SHA-256 of "abc"
    let digest = hash_leaf(&b"abc".to_vec());
    assert_eq!(
        hex::encode(digest),
        "ba7816bf8f01cfea414140de5dae2223b00361a396177a9cb410ff61f20015ad"
    );
    // SHA-256 of the empty string
    let empty = hash_leaf(&Vec::new());
    assert_eq!(
        hex::encode(empty),
        "e3b0c44298fc1c149afbf4c8996fb92427ae41e4649b934ca495991b7852b855"
    );
}

#[test]
fn padding_value_is_all_zero() {
    assert_eq!(zero_hash_bytes(), [0u8; 32]);
}

#[test]
fn single_leaf_root_is_real_digest() {
    // pins the digest wrapper: a root of a one-leaf tree is the leaf digest
    // itself, never the input bytes handed back unchanged
    let proof = build_proof(vec![b"abc".to_vec()], 0).unwrap();
    assert_eq!(
        hex::encode(proof.root),
        "ba7816bf8f01cfea414140de5dae2223b00361a396177a9cb410ff61f20015ad"
    );
}

#[test]
fn generated_leaves_spell_their_index() {
    let leaves = gen_leaves_for_merkle_tree(12);
    assert_eq!(leaves.len(), 12);
    assert_eq!(leaves[0], b"data item 0".to_vec());
    assert_eq!(leaves[9], b"data item 9".to_vec());
    assert_eq!(leaves[10], b"data item 10".to_vec());
    assert_eq!(leaves[11], b"data item 11".to_vec());
}

#[test]
fn generated_leaves_empty_for_zero() {
    assert!(gen_leaves_for_merkle_tree(0).is_empty());
}
