//! The mathematical model of the tree: the padded leaf level, the
//! level-by-level reduction, the sibling path, and the verification fold,
//! together with the laws that relate them.

use vstd::prelude::*;
use crate::hashing::{leaf_hash, node_hash, zero_hash};

verus! {

/// 2 to the power `k`.
pub open spec fn two_pow(k: nat) -> nat
    decreases k,
{
    if k == 0 {
        1
    } else {
        2 * two_pow((k - 1) as nat)
    }
}

/// The tree height for `n` leaves: the least `k` with `n <= two_pow(k)`,
/// that is, the ceiling of the base-2 logarithm of `n` (0 when `n <= 1`).
pub open spec fn ceil_log2(n: nat) -> nat
    decreases n,
{
    if n <= 1 {
        0
    } else {
        1 + ceil_log2(((n + 1) / 2) as nat)
    }
}

/// The index of the other child of the same parent: flip the last bit.
pub open spec fn sibling_index(pos: nat) -> nat {
    if pos % 2 == 0 {
        pos + 1
    } else {
        (pos - 1) as nat
    }
}

/// One reduction round: hash each adjacent pair, left child first.
pub open spec fn next_level(level: Seq<Seq<u8>>) -> Seq<Seq<u8>> {
    Seq::new(level.len() / 2, |i: int| node_hash(level[2 * i], level[2 * i + 1]))
}

/// The level reached after `k` reduction rounds from `level`.
pub open spec fn level_at(level: Seq<Seq<u8>>, k: nat) -> Seq<Seq<u8>>
    decreases k,
{
    if k == 0 {
        level
    } else {
        next_level(level_at(level, (k - 1) as nat))
    }
}

/// The initial level for an item sequence: every item hashed into its leaf,
/// then all-zero padding up to the next power of two. Padding is appended
/// after hashing and never shifts an earlier index.
pub open spec fn leaf_level(items: Seq<Seq<u8>>) -> Seq<Seq<u8>> {
    Seq::new(
        two_pow(ceil_log2(items.len())),
        |i: int|
            if i < items.len() {
                leaf_hash(items[i])
            } else {
                zero_hash()
            },
    )
}

/// The sibling path read off a level of length `two_pow(height)`: the
/// sibling of `pos` at each level, closest to the leaf first.
pub open spec fn sibling_path(level: Seq<Seq<u8>>, pos: nat, height: nat) -> Seq<Seq<u8>>
    decreases height,
{
    if height == 0 {
        Seq::empty()
    } else {
        seq![level[sibling_index(pos) as int]]
            + sibling_path(next_level(level), pos / 2, (height - 1) as nat)
    }
}

/// The proof path for `pos` within `items`: the sibling path over the padded
/// leaf level, walked for the full height of the tree.
pub open spec fn spec_proof_path(items: Seq<Seq<u8>>, pos: nat) -> Seq<Seq<u8>> {
    sibling_path(leaf_level(items), pos, ceil_log2(items.len()))
}

/// The root committed to by `items`: the single hash left after reducing the
/// padded leaf level for the full height of the tree.
pub open spec fn spec_root(items: Seq<Seq<u8>>) -> Seq<u8> {
    level_at(leaf_level(items), ceil_log2(items.len()))[0]
}

/// The verification fold: combine a hash with each path entry in turn,
/// choosing the left/right orientation from the parity of the tracked
/// position, and halving the position at each step.
pub open spec fn fold_path(h: Seq<u8>, pos: nat, path: Seq<Seq<u8>>) -> Seq<u8>
    decreases path.len(),
{
    if path.len() == 0 {
        h
    } else {
        let parent = if pos % 2 == 0 {
            node_hash(h, path[0])
        } else {
            node_hash(path[0], h)
        };
        fold_path(parent, pos / 2, path.drop_first())
    }
}

pub proof fn lemma_two_pow_pos(k: nat)
    ensures
        two_pow(k) >= 1,
    decreases k,
{
    if k > 0 {
        lemma_two_pow_pos((k - 1) as nat);
    }
}

pub proof fn lemma_two_pow_gt(k: nat)
    ensures
        two_pow(k) > k,
    decreases k,
{
    if k > 0 {
        lemma_two_pow_gt((k - 1) as nat);
    }
}

pub proof fn lemma_two_pow_increases(j: nat, k: nat)
    requires
        j <= k,
    ensures
        two_pow(j) <= two_pow(k),
        j < k ==> two_pow(j) < two_pow(k),
    decreases k,
{
    lemma_two_pow_pos(j);
    if j < k {
        lemma_two_pow_increases(j, (k - 1) as nat);
        lemma_two_pow_pos((k - 1) as nat);
    }
}

/// `ceil_log2(n)` really is the ceiling of the base-2 logarithm: `two_pow` of
/// it reaches `n`, and one step lower falls short.
pub proof fn lemma_ceil_log2_bounds(n: nat)
    requires
        n >= 1,
    ensures
        two_pow(ceil_log2(n)) >= n,
        ceil_log2(n) >= 1 ==> two_pow((ceil_log2(n) - 1) as nat) < n,
    decreases n,
{
    if n >= 2 {
        let m = ((n + 1) / 2) as nat;
        lemma_ceil_log2_bounds(m);
        if ceil_log2(m) >= 1 {
            assert(two_pow(ceil_log2(m)) == 2 * two_pow((ceil_log2(m) - 1) as nat));
        }
    }
}

/// The height is determined by its bounds: any `k` with `n <= two_pow(k)`
/// and, unless `k == 0`, `two_pow(k - 1) < n`, equals `ceil_log2(n)`.
pub proof fn lemma_ceil_log2_is_height(n: nat, k: nat)
    requires
        n >= 1,
        two_pow(k) >= n,
        k >= 1 ==> two_pow((k - 1) as nat) < n,
    ensures
        k == ceil_log2(n),
{
    lemma_ceil_log2_bounds(n);
    let c = ceil_log2(n);
    if k < c {
        lemma_two_pow_increases(k, (c - 1) as nat);
    } else if k > c {
        lemma_two_pow_increases(c, (k - 1) as nat);
    }
}

/// Peeling one round off the bottom of `level_at` is the same as starting
/// from the next level.
pub proof fn lemma_level_at_step(level: Seq<Seq<u8>>, k: nat)
    requires
        k >= 1,
    ensures
        level_at(level, k) == level_at(next_level(level), (k - 1) as nat),
    decreases k,
{
    if k == 1 {
        assert(level_at(level, 1) == next_level(level_at(level, 0)));
        assert(level_at(next_level(level), 0) == next_level(level));
    } else {
        lemma_level_at_step(level, (k - 1) as nat);
        assert(level_at(level, k) == next_level(level_at(level, (k - 1) as nat)));
        assert(level_at(next_level(level), (k - 1) as nat)
            == next_level(level_at(next_level(level), (k - 2) as nat)));
    }
}

/// A sibling path carries exactly one entry per level walked.
pub proof fn lemma_sibling_path_len(level: Seq<Seq<u8>>, pos: nat, height: nat)
    ensures
        sibling_path(level, pos, height).len() == height,
    decreases height,
{
    if height > 0 {
        lemma_sibling_path_len(next_level(level), pos / 2, (height - 1) as nat);
    }
}

/// Path length: for any item count of at least one, the proof path has
/// exactly `ceil_log2` of the count entries — zero for a single item.
pub proof fn lemma_path_length(items: Seq<Seq<u8>>, pos: nat)
    requires
        items.len() >= 1,
    ensures
        spec_proof_path(items, pos).len() == ceil_log2(items.len()),
{
    lemma_sibling_path_len(leaf_level(items), pos, ceil_log2(items.len()));
}

/// The round trip over one level: folding the entry at `pos` with its sibling
/// path reproduces the single hash left after reducing for the full height.
pub proof fn lemma_fold_sibling_path(level: Seq<Seq<u8>>, pos: nat, height: nat)
    requires
        level.len() == two_pow(height),
        pos < level.len(),
    ensures
        fold_path(level[pos as int], pos, sibling_path(level, pos, height))
            == level_at(level, height)[0],
    decreases height,
{
    if height > 0 {
        let half = two_pow((height - 1) as nat);
        lemma_two_pow_pos((height - 1) as nat);
        assert(level.len() == 2 * half);
        let nl = next_level(level);
        let sib = sibling_index(pos);
        let path = sibling_path(level, pos, height);
        assert(path.drop_first() =~= sibling_path(nl, pos / 2, (height - 1) as nat));
        let q = pos / 2;
        assert(pos == 2 * q + pos % 2);
        assert(q < half);
        assert(nl[q as int] == node_hash(level[2 * (q as int)], level[2 * (q as int) + 1]));
        if pos % 2 == 0 {
            assert(2 * (q as int) == pos);
            assert(2 * (q as int) + 1 == sib);
        } else {
            assert(2 * (q as int) == sib);
            assert(2 * (q as int) + 1 == pos);
        }
        assert(fold_path(level[pos as int], pos, path)
            == fold_path(nl[q as int], q, sibling_path(nl, q, (height - 1) as nat)));
        lemma_fold_sibling_path(nl, q, (height - 1) as nat);
        lemma_level_at_step(level, height);
    }
}

/// Round trip: for any valid item sequence and position, folding the leaf
/// hash of the item at `pos` with its proof path, using the position-derived
/// orientation at each level, reproduces the root.
pub proof fn lemma_proof_round_trip(items: Seq<Seq<u8>>, pos: nat)
    requires
        items.len() >= 1,
        pos < items.len(),
    ensures
        fold_path(leaf_hash(items[pos as int]), pos, spec_proof_path(items, pos))
            == spec_root(items),
{
    lemma_ceil_log2_bounds(items.len());
    let level = leaf_level(items);
    assert(level[pos as int] == leaf_hash(items[pos as int]));
    lemma_fold_sibling_path(level, pos, ceil_log2(items.len()));
}

/// A single leaf is its own root: the proof path is empty and the root is the
/// leaf hash of the only item.
pub proof fn lemma_single_leaf(items: Seq<Seq<u8>>)
    requires
        items.len() == 1,
    ensures
        spec_proof_path(items, 0) == Seq::<Seq<u8>>::empty(),
        spec_root(items) == leaf_hash(items[0]),
{
    assert(ceil_log2(1) == 0);
    assert(leaf_level(items) =~= seq![leaf_hash(items[0])]);
}

/// Padding never shifts an earlier index: every position below the item count
/// still holds the leaf hash of its own item in the padded level, whose
/// length only grows. The sibling index itself is a function of the position
/// alone — `sibling_index` does not read the level — so it too is unaffected
/// by how much padding follows.
pub proof fn lemma_padding_preserves_positions(items: Seq<Seq<u8>>, i: int)
    requires
        0 <= i < items.len(),
    ensures
        leaf_level(items)[i] == leaf_hash(items[i]),
        leaf_level(items).len() >= items.len(),
{
    lemma_ceil_log2_bounds(items.len());
}

/// Determinism: the proof path and root are functions of the items and the
/// position, so any two results that satisfy the builder's contract on the
/// same input are equal.
pub proof fn lemma_deterministic(
    items: Seq<Seq<u8>>,
    pos: nat,
    path1: Seq<Seq<u8>>,
    root1: Seq<u8>,
    path2: Seq<Seq<u8>>,
    root2: Seq<u8>,
)
    requires
        path1 == spec_proof_path(items, pos),
        root1 == spec_root(items),
        path2 == spec_proof_path(items, pos),
        root2 == spec_root(items),
    ensures
        path1 == path2,
        root1 == root2,
{
}

} // verus!
