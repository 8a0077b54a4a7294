//! The hash collaborator: SHA-256 over byte strings, consumed as an opaque
//! digest, plus the two derived operations the tree uses — hashing a leaf and
//! hashing the concatenation of two child hashes.

use vstd::prelude::*;
use sha2::Digest;

verus! {

/// A hash value: a fixed 32-byte array, compared only for equality.
pub type Hash32Bytes = [u8; 32];

/// What SHA-256 returns on a byte sequence. The digest is a function of the
/// input bytes alone; its value is named here, not written out.
pub uninterp spec fn sha256_of(bytes: Seq<u8>) -> Seq<u8>;

/// Relies on sha2's `Sha256::digest`: a 32-byte digest determined by the
/// input bytes alone.
#[verifier::external_body]
fn sha256_bytes(bytes: &Vec<u8>) -> (r: Hash32Bytes)
    ensures
        r@ == sha256_of(bytes@),
{
    sha2::Sha256::digest(bytes).into()
}

/// The hash stored in a leaf for a given item.
pub open spec fn leaf_hash(item: Seq<u8>) -> Seq<u8> {
    sha256_of(item)
}

/// The hash stored in an internal node: the digest of the left child's bytes
/// followed by the right child's bytes. Order matters; a verifier recombines
/// with the same orientation.
pub open spec fn node_hash(left: Seq<u8>, right: Seq<u8>) -> Seq<u8> {
    sha256_of(left + right)
}

/// The padding value: an all-zero hash, appended after hashing to bring the
/// leaf level up to a power of two.
pub open spec fn zero_hash() -> Seq<u8> {
    Seq::new(32, |i: int| 0u8)
}

/// Hash one item into its leaf value.
pub fn hash_leaf(item: &Vec<u8>) -> (r: Hash32Bytes)
    ensures
        r@ == leaf_hash(item@),
{
    sha256_bytes(item)
}

/// Hash an adjacent pair into its parent value, left child first.
pub fn hash_internal(left: &Hash32Bytes, right: &Hash32Bytes) -> (r: Hash32Bytes)
    ensures
        r@ == node_hash(left@, right@),
{
    let mut buf: Vec<u8> = Vec::new();
    let mut i: usize = 0;
    while i < 32
        invariant
            i <= 32,
            buf@.len() == i,
            forall|j: int| 0 <= j < i ==> buf@[j] == left@[j],
        decreases 32 - i,
    {
        buf.push(left[i]);
        i = i + 1;
    }
    let mut k: usize = 0;
    while k < 32
        invariant
            k <= 32,
            buf@.len() == 32 + k,
            forall|j: int| 0 <= j < 32 ==> buf@[j] == left@[j],
            forall|j: int| 0 <= j < k ==> buf@[32 + j] == right@[j],
        decreases 32 - k,
    {
        buf.push(right[k]);
        k = k + 1;
    }
    proof {
        assert(buf@ =~= left@ + right@);
    }
    sha256_bytes(&buf)
}

/// The all-zero padding hash as a concrete value.
pub fn zero_hash_bytes() -> (r: Hash32Bytes)
    ensures
        r@ == zero_hash(),
{
    let z: Hash32Bytes = [0u8; 32];
    proof {
        assert(z@ =~= zero_hash());
    }
    z
}

/// Byte-for-byte equality of two hash values.
pub fn hash_eq(a: &Hash32Bytes, b: &Hash32Bytes) -> (r: bool)
    ensures
        r == (a@ == b@),
{
    let mut i: usize = 0;
    while i < 32
        invariant
            i <= 32,
            forall|j: int| 0 <= j < i ==> a@[j] == b@[j],
        decreases 32 - i,
    {
        if a[i] != b[i] {
            return false;
        }
        i = i + 1;
    }
    proof {
        assert(a@ =~= b@);
    }
    true
}

} // verus!
