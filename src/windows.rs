use vstd::prelude::*;
use std::marker::PhantomData;

verus! {

/// The Hamming window, `w[n] = 0.54 - 0.46 cos(2 pi n / (N - 1))`.
#[derive(Clone, Copy, Debug)]
pub struct Hamming;

/// The Hann window, `w[n] = 0.5 - 0.5 cos(2 pi n / (N - 1))`.
#[derive(Clone, Copy, Debug)]
pub struct Hann;

/// Walks the tap positions `0, 1, ..., ns - 1` of a window of `ns` taps.
pub struct Iter<W, H> {
    window: W,
    n: usize,
    ns: usize,
    tap: PhantomData<H>,
}

impl<W, H> Iter<W, H> {
    /// The next position to be handed out.
    pub closed spec fn spec_next(&self) -> nat {
        self.n as nat
    }

    /// The number of taps of the window.
    pub closed spec fn spec_len(&self) -> nat {
        self.ns as nat
    }

    pub closed spec fn spec_window(&self) -> W {
        self.window
    }

    /// A walk over the `ns` tap positions of `window`.
    pub fn new(window: W, ns: usize) -> (r: Self)
        ensures
            r.spec_next() == 0,
            r.spec_len() == ns,
            r.spec_window() == window,
    {
        Iter { window, n: 0, ns, tap: PhantomData }
    }

    /// The window whose taps are walked.
    pub fn window(&self) -> (r: &W)
        ensures
            *r == self.spec_window(),
    {
        &self.window
    }

    /// The number of taps of the window.
    pub fn len(&self) -> (r: usize)
        ensures
            r == self.spec_len(),
    {
        self.ns
    }

    /// Hands out the next tap position, or `None` once all `ns` have been.
    pub fn next_index(&mut self) -> (r: Option<usize>)
        ensures
            final(self).spec_len() == old(self).spec_len(),
            final(self).spec_window() == old(self).spec_window(),
            old(self).spec_next() < old(self).spec_len() ==> {
                &&& r == Some(old(self).spec_next() as usize)
                &&& final(self).spec_next() == old(self).spec_next() + 1
            },
            old(self).spec_next() >= old(self).spec_len() ==> {
                &&& r == None::<usize>
                &&& final(self).spec_next() == old(self).spec_next()
            },
    {
        if self.n < self.ns {
            let res = self.n;
            self.n = self.n + 1;
            Some(res)
        } else {
            None
        }
    }
}

} // verus!
