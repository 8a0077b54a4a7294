//! Generation of the sample leaf set: the ordered byte strings
//! `"data item 0"`, `"data item 1"`, ... up to a requested count.

use vstd::prelude::*;

verus! {

/// The decimal digits of `n`, most significant first, as ASCII bytes.
pub open spec fn dec_digits(n: nat) -> Seq<u8>
    decreases n,
{
    if n < 10 {
        seq![(48 + n) as u8]
    } else {
        dec_digits(n / 10) + seq![(48 + n % 10) as u8]
    }
}

/// The bytes of the text `"data item "` followed by the decimal digits of `i`.
pub open spec fn leaf_text(i: nat) -> Seq<u8> {
    seq![100u8, 97u8, 116u8, 97u8, 32u8, 105u8, 116u8, 101u8, 109u8, 32u8] + dec_digits(i)
}

/// The ordered leaf set of `n` items: `leaf_text(0)` through `leaf_text(n - 1)`.
pub open spec fn leaf_texts(n: nat) -> Seq<Seq<u8>> {
    Seq::new(n, |i: int| leaf_text(i as nat))
}

/// Append the decimal digits of `n` to `out`.
fn push_dec(out: &mut Vec<u8>, n: usize)
    ensures
        final(out)@ == old(out)@ + dec_digits(n as nat),
    decreases n,
{
    if n < 10 {
        out.push(48 + n as u8);
        assert(out@ =~= old(out)@ + dec_digits(n as nat));
    } else {
        push_dec(out, n / 10);
        out.push(48 + (n % 10) as u8);
        assert(out@ =~= old(out)@ + dec_digits(n as nat));
    }
}

/// The bytes of one leaf item.
fn leaf_bytes(i: usize) -> (r: Vec<u8>)
    ensures
        r@ == leaf_text(i as nat),
{
    let mut out: Vec<u8> = Vec::new();
    out.push(100);
    out.push(97);
    out.push(116);
    out.push(97);
    out.push(32);
    out.push(105);
    out.push(116);
    out.push(101);
    out.push(109);
    out.push(32);
    push_dec(&mut out, i);
    proof {
        assert(out@ =~= leaf_text(i as nat));
    }
    out
}

/// Build the ordered leaf set for a Merkle tree of `num_leaves` items.
pub fn gen_leaves_for_merkle_tree(num_leaves: usize) -> (r: Vec<Vec<u8>>)
    ensures
        r@.len() == num_leaves,
        forall|i: int| 0 <= i < num_leaves ==> r@[i]@ == leaf_text(i as nat),
{
    let mut r: Vec<Vec<u8>> = Vec::new();
    let mut i: usize = 0;
    while i < num_leaves
        invariant
            i <= num_leaves,
            r@.len() == i,
            forall|j: int| 0 <= j < i ==> r@[j]@ == leaf_text(j as nat),
        decreases num_leaves - i,
    {
        r.push(leaf_bytes(i));
        i = i + 1;
    }
    r
}

} // verus!
