use vstd::prelude::*;
use crate::collections::queue::Queue;
use crate::math::dotprod::{dot, dot_spec, lemma_dot_bound, lemma_dot_split};
use crate::zero::Zero;

verus! {

/// A stateful, streaming FIR filter.
pub struct FIR<H, X> {
    /// Filter taps stored in reverse order.
    h: Vec<H>,
    /// Previous input samples.
    history: Queue<X>,
}

impl<H, X> FIR<H, X> {
    /// The taps, newest-sample tap last.
    pub closed spec fn spec_h(&self) -> Seq<H> {
        self.h@
    }

    /// The input samples held, oldest first.
    pub closed spec fn spec_history(&self) -> Seq<X> {
        self.history@
    }

    /// One stored sample per tap.
    pub closed spec fn wf(&self) -> bool {
        &&& self.history.wf()
        &&& self.h@.len() == self.history@.len()
    }

    /// The taps in stored (reversed) order.
    pub fn h(&self) -> (r: &[H])
        ensures
            r@ == self.spec_h(),
    {
        self.h.as_slice()
    }
}

impl<H: Copy, X: Zero> FIR<H, X> {
    /// A filter with the given taps and a history of zeros.
    pub fn with_taps(taps: &[H]) -> (r: Self)
        requires
            taps@.len() > 0,
        ensures
            r.wf(),
            r.spec_h() == taps@.reverse(),
            r.spec_history() == Seq::new(taps@.len(), |i: int| X::spec_zero()),
    {
        let len = taps.len();
        let mut h: Vec<H> = Vec::with_capacity(len);
        let mut i: usize = 0;
        while i < len
            invariant
                i <= len,
                len == taps@.len(),
                h@ == taps@.reverse().take(i as int),
            decreases len - i,
        {
            h.push(taps[len - 1 - i]);
            i = i + 1;
            assert(h@ =~= taps@.reverse().take(i as int));
        }
        assert(h@ =~= taps@.reverse());
        let history = match Queue::with_capacity(len) {
            Ok(q) => q,
            Err(_) => vstd::pervasive::unreached(),
        };
        FIR { h, history }
    }
}

impl FIR<i32, i32> {
    /// Takes one input sample and returns the filter's output: the inner product
    /// of the stored taps with the history, oldest sample first.
    pub fn exec(&mut self, x: i32) -> (r: i128)
        requires
            old(self).wf(),
        ensures
            final(self).wf(),
            final(self).spec_h() == old(self).spec_h(),
            final(self).spec_history() == old(self).spec_history().drop_first().push(x),
            r == dot_spec(final(self).spec_h(), final(self).spec_history()),
    {
        proof {
            self.history.lemma_wf();
        }
        self.history.push(x);
        proof {
            self.history.lemma_wf();
        }
        let (x0, x1) = self.history.as_slices();
        let taps = self.h.as_slice();
        let n_taps = taps.len();
        let (h0, h1) = taps.split_at(x0.len());
        proof {
            assert(h0@ + h1@ =~= self.h@);
            lemma_dot_split(h0@, h1@, x0@, x1@);
            assert(self.h@.len() == n_taps);
            lemma_dot_bound(self.h@, self.history@);
        }
        dot(h0, x0) + dot(h1, x1)
    }
}

} // verus!
