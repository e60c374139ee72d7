use vstd::prelude::*;

verus! {

/// The sum of the first `len` pairwise products of `a` and `b`.
pub open spec fn dot_upto(a: Seq<i32>, b: Seq<i32>, len: nat) -> int
    decreases len,
{
    if len == 0 {
        0
    } else {
        dot_upto(a, b, (len - 1) as nat) + a[len - 1] * b[len - 1]
    }
}

/// The inner product of `a` and `b` over their common length.
pub open spec fn dot_spec(a: Seq<i32>, b: Seq<i32>) -> int {
    dot_upto(a, b, if a.len() <= b.len() {
        a.len()
    } else {
        b.len()
    })
}

/// The largest magnitude of a product of two `i32` values.
pub open spec fn max_product() -> int {
    0x4000_0000_0000_0000
}

pub proof fn lemma_product_bound(x: i32, y: i32)
    ensures
        -max_product() <= x * y <= max_product(),
{
    assert(-max_product() <= x * y <= max_product()) by (nonlinear_arith)
        requires
            -0x8000_0000 <= x <= 0x7fff_ffff,
            -0x8000_0000 <= y <= 0x7fff_ffff,
    ;
}

/// A partial inner product of `len` terms is at most `len` products in size.
pub proof fn lemma_dot_upto_bound(a: Seq<i32>, b: Seq<i32>, len: nat)
    requires
        len <= a.len(),
        len <= b.len(),
    ensures
        -(len * max_product()) <= dot_upto(a, b, len) <= len * max_product(),
    decreases len,
{
    if len > 0 {
        lemma_dot_upto_bound(a, b, (len - 1) as nat);
        lemma_product_bound(a[len - 1], b[len - 1]);
        assert(len * max_product() == (len - 1) * max_product() + max_product()) by (nonlinear_arith);
    }
}

/// An inner product of sequences that fit in memory fits in 127 bits.
pub proof fn lemma_dot_bound(a: Seq<i32>, b: Seq<i32>)
    requires
        a.len() <= usize::MAX,
    ensures
        -0x4000_0000_0000_0000_0000_0000_0000_0000 <= dot_spec(a, b)
            <= 0x4000_0000_0000_0000_0000_0000_0000_0000,
{
    let len = if a.len() <= b.len() {
        a.len()
    } else {
        b.len()
    };
    lemma_dot_upto_bound(a, b, len);
    assert(len * max_product() <= 0x1_0000_0000_0000_0000 * max_product()) by (nonlinear_arith)
        requires
            len <= 0x1_0000_0000_0000_0000,
    ;
}

/// Inner products split at a common point of both sequences.
pub proof fn lemma_dot_split(a0: Seq<i32>, a1: Seq<i32>, b0: Seq<i32>, b1: Seq<i32>)
    requires
        a0.len() == b0.len(),
        a1.len() == b1.len(),
    ensures
        dot_spec(a0 + a1, b0 + b1) == dot_spec(a0, b0) + dot_spec(a1, b1),
    decreases a1.len(),
{
    if a1.len() == 0 {
        assert(a0 + a1 =~= a0);
        assert(b0 + b1 =~= b0);
    } else {
        lemma_dot_split(a0, a1.drop_last(), b0, b1.drop_last());
        assert((a0 + a1).drop_last() =~= a0 + a1.drop_last());
        assert((b0 + b1).drop_last() =~= b0 + b1.drop_last());
        let ab = a0 + a1;
        let bb = b0 + b1;
        let l = (a0.len() + a1.len() - 1) as int;
        assert(ab.take(l) =~= ab.drop_last().take(l));
        assert(bb.take(l) =~= bb.drop_last().take(l));
        assert(a1.take(a1.len() - 1) =~= a1.drop_last().take(a1.len() - 1));
        assert(b1.take(b1.len() - 1) =~= b1.drop_last().take(b1.len() - 1));
        lemma_dot_upto_prefix(a0 + a1, (a0 + a1).drop_last(), b0 + b1, (b0 + b1).drop_last(), (a0.len() + a1.len() - 1) as nat);
        lemma_dot_upto_prefix(a1, a1.drop_last(), b1, b1.drop_last(), (a1.len() - 1) as nat);
    }
}

/// A partial inner product depends only on the terms it sums.
pub proof fn lemma_dot_upto_prefix(a: Seq<i32>, a2: Seq<i32>, b: Seq<i32>, b2: Seq<i32>, len: nat)
    requires
        len <= a.len(),
        len <= a2.len(),
        len <= b.len(),
        len <= b2.len(),
        a.take(len as int) == a2.take(len as int),
        b.take(len as int) == b2.take(len as int),
    ensures
        dot_upto(a, b, len) == dot_upto(a2, b2, len),
    decreases len,
{
    if len > 0 {
        assert(a[len - 1] == a.take(len as int)[len - 1]);
        assert(a2[len - 1] == a2.take(len as int)[len - 1]);
        assert(b[len - 1] == b.take(len as int)[len - 1]);
        assert(b2[len - 1] == b2.take(len as int)[len - 1]);
        assert(a.take(len - 1) =~= a.take(len as int).take(len - 1));
        assert(a2.take(len - 1) =~= a2.take(len as int).take(len - 1));
        assert(b.take(len - 1) =~= b.take(len as int).take(len - 1));
        assert(b2.take(len - 1) =~= b2.take(len as int).take(len - 1));
        lemma_dot_upto_prefix(a, a2, b, b2, (len - 1) as nat);
    }
}

/// The inner product of `a` and `b` over their common length, summed in 128 bits
/// so that no sum of 32-bit products can overflow.
pub fn dot(a: &[i32], b: &[i32]) -> (r: i128)
    ensures
        r == dot_spec(a@, b@),
{
    let len: usize = if a.len() <= b.len() {
        a.len()
    } else {
        b.len()
    };
    let mut acc: i128 = 0;
    let mut i: usize = 0;
    while i < len
        invariant
            i <= len,
            len <= a@.len(),
            len <= b@.len(),
            acc == dot_upto(a@, b@, i as nat),
        decreases len - i,
    {
        proof {
            lemma_dot_upto_bound(a@, b@, i as nat);
            lemma_product_bound(a@[i as int], b@[i as int]);
            assert(i * max_product() <= 0x1_0000_0000_0000_0000 * max_product()) by (nonlinear_arith)
                requires
                    i <= 0x1_0000_0000_0000_0000,
            ;
        }
        acc = acc + (a[i] as i128) * (b[i] as i128);
        i = i + 1;
    }
    acc
}

} // verus!
