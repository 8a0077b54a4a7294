//! Merkle inclusion proofs: hash the leaves, pad to a power of two, fold the
//! tree level by level, and record the sibling hash at every level. The result
//! is the ordered sibling path together with the root, enough for a verifier
//! to recompute the root from one leaf.

pub mod hashing;
pub mod leaves;
pub mod prover;
pub mod tree;
