use vstd::prelude::*;
use itertools::Itertools;

pub mod dotprod;

verus! {

/// The first difference of `xs`: `xs[k + 1] - xs[k]` for each pair of neighbours.
pub open spec fn spec_diff(xs: Seq<i32>) -> Seq<int> {
    Seq::new(
        if xs.len() == 0 {
            0
        } else {
            (xs.len() - 1) as nat
        },
        |k: int| xs[k + 1] - xs[k],
    )
}

/// Relies on itertools' `tuple_windows`: every window of two neighbouring
/// elements, in order.
#[verifier::external_body]
fn neighbour_pairs(xs: &[i32]) -> (r: Vec<(i32, i32)>)
    ensures
        r@.len() == if xs@.len() == 0 {
            0
        } else {
            xs@.len() - 1
        },
        forall|k: int| 0 <= k < r@.len() ==> #[trigger] r@[k] == (xs@[k], xs@[k + 1]),
{
    xs.iter().copied().tuple_windows().collect()
}

/// The first difference of `xs`, one element shorter than `xs`.
pub fn diff(xs: &[i32]) -> (r: Vec<i32>)
    requires
        forall|k: int|
            0 <= k < xs@.len() - 1 ==> i32::MIN <= #[trigger] xs@[k + 1] - xs@[k] <= i32::MAX,
    ensures
        r@.len() == spec_diff(xs@).len(),
        forall|k: int| 0 <= k < r@.len() ==> #[trigger] r@[k] == spec_diff(xs@)[k],
{
    let pairs = neighbour_pairs(xs);
    let mut out: Vec<i32> = Vec::with_capacity(pairs.len());
    let mut i: usize = 0;
    while i < pairs.len()
        invariant
            i <= pairs@.len(),
            pairs@.len() == spec_diff(xs@).len(),
            forall|k: int| 0 <= k < pairs@.len() ==> #[trigger] pairs@[k] == (xs@[k], xs@[k + 1]),
            forall|k: int|
                0 <= k < xs@.len() - 1 ==> i32::MIN <= #[trigger] xs@[k + 1] - xs@[k] <= i32::MAX,
            out@.len() == i,
            forall|k: int| 0 <= k < i ==> #[trigger] out@[k] == spec_diff(xs@)[k],
        decreases pairs@.len() - i,
    {
        let (l, r) = pairs[i];
        assert(i32::MIN <= xs@[i as int + 1] - xs@[i as int] <= i32::MAX);
        out.push(r - l);
        i = i + 1;
    }
    out
}

} // verus!
