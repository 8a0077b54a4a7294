//! Proof generation: hash the leaves, pad to a power of two, reduce level by
//! level while collecting the sibling hash at each level, and hand back the
//! ordered path, the root, and the assembled proof record.

use vstd::prelude::*;
use crate::hashing::{
    hash_eq, hash_internal, hash_leaf, leaf_hash, node_hash, zero_hash, zero_hash_bytes,
    Hash32Bytes,
};
use crate::leaves::{gen_leaves_for_merkle_tree, leaf_text, leaf_texts};
use crate::tree::{
    ceil_log2, fold_path, leaf_level, lemma_ceil_log2_bounds, lemma_ceil_log2_is_height,
    lemma_proof_round_trip, lemma_two_pow_gt, lemma_two_pow_pos, next_level, level_at,
    sibling_index, sibling_path, spec_proof_path, spec_root, two_pow,
};

verus! {

/// The views of a sequence of hash values.
pub open spec fn hashes_view(v: Seq<Hash32Bytes>) -> Seq<Seq<u8>> {
    v.map_values(|h: Hash32Bytes| h@)
}

/// The views of a sequence of byte strings.
pub open spec fn bytes_view(v: Seq<Vec<u8>>) -> Seq<Seq<u8>> {
    v.map_values(|b: Vec<u8>| b@)
}

/// Why no proof could be produced.
#[derive(Clone, Copy, Debug, PartialEq, Eq, Structural)]
pub enum MerkleError {
    /// The item sequence was empty; the tree height is undefined for zero leaves.
    EmptyInput,
    /// The requested position does not name an item of the sequence.
    InvalidPosition,
}

/// A complete inclusion proof: the position and bytes of the proven item, the
/// ordered sibling path from the leaf's immediate sibling up to just below
/// the root, and the root itself.
#[derive(Debug, PartialEq, Eq)]
pub struct MerkleProof {
    pub leaf_position: usize,
    pub leaf_value: Vec<u8>,
    pub proof_path: Vec<Hash32Bytes>,
    pub root: Hash32Bytes,
}

/// The tree height for `n` leaves and the padded leaf count, as machine
/// integers: the least power of two reaching `n`, and its exponent.
fn compute_height(n: usize) -> (r: (usize, usize))
    requires
        1 <= n,
        n <= usize::MAX / 2 + 1,
    ensures
        r.0 == ceil_log2(n as nat),
        r.1 == two_pow(ceil_log2(n as nat)),
{
    let mut h: usize = 0;
    let mut p: usize = 1;
    while p < n
        invariant
            1 <= n,
            n <= usize::MAX / 2 + 1,
            p == two_pow(h as nat),
            h < p,
            h == 0 || two_pow((h - 1) as nat) < n,
        decreases 2 * n - p,
    {
        p = p * 2;
        h = h + 1;
        proof {
            lemma_two_pow_gt(h as nat);
        }
    }
    proof {
        lemma_ceil_log2_is_height(n as nat, h as nat);
    }
    (h, p)
}

/// Hash every item into its leaf and append all-zero padding up to the next
/// power of two; padding is appended after hashing and is never hashed itself.
pub fn hash_and_pad(leaves: &Vec<Vec<u8>>) -> (r: Vec<Hash32Bytes>)
    requires
        1 <= leaves@.len(),
        leaves@.len() <= usize::MAX / 2 + 1,
    ensures
        hashes_view(r@) == leaf_level(bytes_view(leaves@)),
{
    let n = leaves.len();
    let (_height, padded) = compute_height(n);
    let mut state: Vec<Hash32Bytes> = Vec::new();
    let mut i: usize = 0;
    while i < n
        invariant
            i <= n,
            n == leaves@.len(),
            state@.len() == i,
            forall|j: int| 0 <= j < i ==> state@[j]@ == leaf_hash(leaves@[j]@),
        decreases n - i,
    {
        let h = hash_leaf(&leaves[i]);
        state.push(h);
        i = i + 1;
    }
    proof {
        lemma_ceil_log2_bounds(n as nat);
    }
    while state.len() < padded
        invariant
            n == leaves@.len(),
            n <= state@.len() <= padded,
            padded == two_pow(ceil_log2(n as nat)),
            forall|j: int| 0 <= j < n ==> state@[j]@ == leaf_hash(leaves@[j]@),
            forall|j: int| n <= j < state@.len() ==> state@[j]@ == zero_hash(),
        decreases padded - state@.len(),
    {
        state.push(zero_hash_bytes());
    }
    proof {
        assert(hashes_view(state@) =~= leaf_level(bytes_view(leaves@)));
    }
    state
}

/// Walk the padded leaf level up to the root: record the sibling of the
/// tracked position at each level, halve the position, and reduce the level,
/// `height` times. Returns the ordered sibling path and the root.
fn path_and_root(state: Vec<Hash32Bytes>, leaf_pos: usize, height: usize) -> (r: (
    Vec<Hash32Bytes>,
    Hash32Bytes,
))
    requires
        state@.len() == two_pow(height as nat),
        leaf_pos < state@.len(),
    ensures
        hashes_view(r.0@) == sibling_path(hashes_view(state@), leaf_pos as nat, height as nat),
        r.0@.len() == height,
        r.1@ == level_at(hashes_view(state@), height as nat)[0],
{
    let ghost l0 = hashes_view(state@);
    let mut state = state;
    let mut hashes: Vec<Hash32Bytes> = Vec::new();
    let mut level_pos = leaf_pos;
    let mut level: usize = 0;
    while level < height
        invariant
            level <= height,
            hashes_view(state@) == level_at(l0, level as nat),
            state@.len() == two_pow((height - level) as nat),
            level_pos < state@.len(),
            hashes@.len() == level,
            hashes_view(hashes@)
                + sibling_path(hashes_view(state@), level_pos as nat, (height - level) as nat)
                == sibling_path(l0, leaf_pos as nat, height as nat),
        decreases height - level,
    {
        let ghost rem = (height - level) as nat;
        let ghost cur = hashes_view(state@);
        let ghost pos0 = level_pos as nat;
        let ghost hs0 = hashes@;
        proof {
            lemma_two_pow_pos((rem - 1) as nat);
            assert(two_pow(rem) == 2 * two_pow((rem - 1) as nat));
            assert(level_pos == 2 * (level_pos as int / 2) + level_pos as int % 2);
        }
        let sibling_pos = if level_pos % 2 == 0 {
            level_pos + 1
        } else {
            level_pos - 1
        };
        proof {
            assert(sibling_pos == sibling_index(pos0));
            assert(sibling_pos < state@.len());
        }
        hashes.push(state[sibling_pos]);
        level_pos = level_pos / 2;
        let next = reduce_level(&state);
        state = next;
        level = level + 1;
        proof {
            assert(hashes_view(state@) == next_level(cur));
            assert(hashes_view(state@).len() == state@.len());
            assert(next_level(cur).len() == cur.len() / 2);
            assert(state@.len() == two_pow((rem - 1) as nat));
            assert(2 * (pos0 / 2) <= pos0);
            assert(level_pos < state@.len());
            assert(hashes_view(state@) == level_at(l0, level as nat));
            assert(sibling_path(cur, pos0, rem) == seq![cur[sibling_index(pos0) as int]]
                + sibling_path(next_level(cur), pos0 / 2, (rem - 1) as nat));
            assert(hashes_view(hashes@)
                + sibling_path(hashes_view(state@), level_pos as nat, (height - level) as nat)
                =~= hashes_view(hs0) + sibling_path(cur, pos0, rem));
        }
    }
    proof {
        assert(state@.len() == two_pow(0));
        assert(two_pow(0) == 1);
        assert(sibling_path(hashes_view(state@), level_pos as nat, 0) == Seq::<Seq<u8>>::empty());
        assert(hashes_view(hashes@) + Seq::<Seq<u8>>::empty() =~= hashes_view(hashes@));
        assert(state@[0]@ == level_at(l0, height as nat)[0]);
    }
    let root = state[0];
    (hashes, root)
}

/// Generate the inclusion proof for the leaf at `leaf_pos`: the ordered list
/// of sibling hashes, closest to the leaf first, one per level of the tree.
pub fn gen_merkle_proof(leaves: Vec<Vec<u8>>, leaf_pos: usize) -> (r: Vec<Hash32Bytes>)
    requires
        1 <= leaves@.len(),
        leaves@.len() <= usize::MAX / 2 + 1,
        leaf_pos < leaves@.len(),
    ensures
        hashes_view(r@) == spec_proof_path(bytes_view(leaves@), leaf_pos as nat),
        r@.len() == ceil_log2(leaves@.len() as nat),
{
    let n = leaves.len();
    let (height, _padded) = compute_height(n);
    let state = hash_and_pad(&leaves);
    proof {
        lemma_ceil_log2_bounds(n as nat);
        assert(hashes_view(state@).len() == state@.len());
    }
    let (path, _root) = path_and_root(state, leaf_pos, height);
    path
}

/// Derive the proof record for the item at `position`, or say exactly why
/// none exists: `EmptyInput` for zero items, `InvalidPosition` for a position
/// at or past the item count. On success the record carries the position, the
/// item's bytes, the ordered sibling path, and the root, and folding the leaf
/// hash of the item with the path reproduces the root.
pub fn build_proof(items: Vec<Vec<u8>>, position: usize) -> (r: Result<MerkleProof, MerkleError>)
    requires
        items@.len() <= usize::MAX / 2 + 1,
    ensures
        items@.len() == 0 ==> r == Err::<MerkleProof, MerkleError>(MerkleError::EmptyInput),
        items@.len() > 0 && position >= items@.len() ==> r == Err::<
            MerkleProof,
            MerkleError,
        >(MerkleError::InvalidPosition),
        position < items@.len() ==> (r matches Ok(p)
            && p.leaf_position == position
            && p.leaf_value@ == bytes_view(items@)[position as int]
            && hashes_view(p.proof_path@) == spec_proof_path(bytes_view(items@), position as nat)
            && p.proof_path@.len() == ceil_log2(items@.len() as nat)
            && p.root@ == spec_root(bytes_view(items@))
            && fold_path(
                leaf_hash(bytes_view(items@)[position as int]),
                position as nat,
                hashes_view(p.proof_path@),
            ) == p.root@),
{
    if items.len() == 0 {
        return Err(MerkleError::EmptyInput);
    }
    if position >= items.len() {
        return Err(MerkleError::InvalidPosition);
    }
    let n = items.len();
    let leaf_value = copy_bytes(&items[position]);
    let (height, _padded) = compute_height(n);
    let state = hash_and_pad(&items);
    proof {
        lemma_ceil_log2_bounds(n as nat);
        assert(hashes_view(state@).len() == state@.len());
    }
    let (path, root) = path_and_root(state, position, height);
    proof {
        lemma_proof_round_trip(bytes_view(items@), position as nat);
    }
    Ok(MerkleProof { leaf_position: position, leaf_value, proof_path: path, root })
}

/// Build the sample leaf set of `num_leaves` items and the inclusion proof
/// for the item at `leaf_position`, returning the assembled proof record.
pub fn run(leaf_position: usize, num_leaves: usize) -> (r: MerkleProof)
    requires
        1 <= num_leaves,
        num_leaves <= usize::MAX / 2 + 1,
        leaf_position < num_leaves,
    ensures
        r.leaf_position == leaf_position,
        r.leaf_value@ == leaf_text(leaf_position as nat),
        hashes_view(r.proof_path@) == spec_proof_path(leaf_texts(num_leaves as nat), leaf_position as nat),
        r.proof_path@.len() == ceil_log2(num_leaves as nat),
        r.root@ == spec_root(leaf_texts(num_leaves as nat)),
{
    let leaves = gen_leaves_for_merkle_tree(num_leaves);
    proof {
        assert(bytes_view(leaves@) =~= leaf_texts(num_leaves as nat));
    }
    match build_proof(leaves, leaf_position) {
        Ok(p) => p,
        Err(_) => vstd::pervasive::unreached(),
    }
}

/// Check an inclusion proof: fold the leaf hash of `leaf_value` with the path
/// entries bottom-up, choosing the left/right orientation from the parity of
/// the tracked position at each level, and compare the result to `root`.
pub fn verify_proof(
    leaf_value: &Vec<u8>,
    position: usize,
    path: &Vec<Hash32Bytes>,
    root: &Hash32Bytes,
) -> (r: bool)
    ensures
        r == (fold_path(leaf_hash(leaf_value@), position as nat, hashes_view(path@)) == root@),
{
    let mut h = hash_leaf(leaf_value);
    let mut pos = position;
    let mut i: usize = 0;
    let n = path.len();
    proof {
        assert(hashes_view(path@).skip(0) =~= hashes_view(path@));
    }
    while i < n
        invariant
            i <= n,
            n == path@.len(),
            fold_path(h@, pos as nat, hashes_view(path@).skip(i as int))
                == fold_path(leaf_hash(leaf_value@), position as nat, hashes_view(path@)),
        decreases n - i,
    {
        let ghost pre = hashes_view(path@).skip(i as int);
        proof {
            assert(pre.len() == n - i);
            assert(pre[0] == path@[i as int]@);
            assert(pre.drop_first() =~= hashes_view(path@).skip(i as int + 1));
        }
        let entry = &path[i];
        if pos % 2 == 0 {
            h = hash_internal(&h, entry);
        } else {
            h = hash_internal(entry, &h);
        }
        pos = pos / 2;
        i = i + 1;
    }
    proof {
        assert(hashes_view(path@).skip(n as int) =~= Seq::<Seq<u8>>::empty());
    }
    hash_eq(&h, root)
}

/// A fresh vector with the same bytes.
fn copy_bytes(src: &Vec<u8>) -> (r: Vec<u8>)
    ensures
        r@ == src@,
{
    let mut r: Vec<u8> = Vec::new();
    let mut i: usize = 0;
    let n = src.len();
    while i < n
        invariant
            i <= n,
            n == src@.len(),
            r@ == src@.take(i as int),
        decreases n - i,
    {
        r.push(src[i]);
        proof {
            assert(r@ =~= src@.take(i as int + 1));
        }
        i = i + 1;
    }
    proof {
        assert(src@.take(n as int) =~= src@);
    }
    r
}

/// One reduction round: hash each adjacent pair of the level, left child
/// first, into a level of half the length.
fn reduce_level(state: &Vec<Hash32Bytes>) -> (r: Vec<Hash32Bytes>)
    requires
        state@.len() % 2 == 0,
    ensures
        hashes_view(r@) == next_level(hashes_view(state@)),
{
    let half = state.len() / 2;
    let mut out: Vec<Hash32Bytes> = Vec::new();
    let mut i: usize = 0;
    while i < half
        invariant
            i <= half,
            half == state@.len() / 2,
            state@.len() % 2 == 0,
            state@.len() <= usize::MAX,
            out@.len() == i,
            forall|j: int| 0 <= j < i ==> out@[j]@ == node_hash(state@[2 * j]@, state@[2 * j + 1]@),
        decreases half - i,
    {
        proof {
            assert(2 * (i as int) + 1 < state@.len());
        }
        let h = hash_internal(&state[2 * i], &state[2 * i + 1]);
        out.push(h);
        i = i + 1;
    }
    proof {
        assert(hashes_view(out@) =~= next_level(hashes_view(state@)));
    }
    out
}

} // verus!
