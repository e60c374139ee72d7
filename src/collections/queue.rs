use vstd::prelude::*;
use crate::error::DspError;
use crate::zero::Zero;

verus! {

/// A fixed-size circular buffer of the most recent samples.
///
/// Its view is the buffer's contents from the oldest sample to the newest.
#[derive(Clone, Debug)]
pub struct Queue<T> {
    head: usize,
    buf: Vec<T>,
}

impl<T> View for Queue<T> {
    type V = Seq<T>;

    closed spec fn view(&self) -> Seq<T> {
        self.buf@.subrange(self.head as int, self.buf@.len() as int) + self.buf@.subrange(
            0,
            self.head as int,
        )
    }
}

impl<T> Queue<T> {
    /// The buffer is non-empty and the write cursor lies within it.
    pub closed spec fn wf(&self) -> bool {
        0 < self.buf@.len() && self.head < self.buf@.len()
    }

    /// The position of the slot that the next push overwrites.
    pub closed spec fn cursor(&self) -> nat {
        self.head as nat
    }

    /// A well-formed history is non-empty and its cursor lies within it.
    pub proof fn lemma_wf(&self)
        requires
            self.wf(),
        ensures
            self@.len() > 0,
            self.cursor() < self@.len(),
    {
    }
}

/// The evicted samples and the final contents after pushing `vs`, in order, into
/// a history whose contents are `s`.
pub open spec fn push_all<T>(s: Seq<T>, vs: Seq<T>) -> (Seq<T>, Seq<T>)
    decreases vs.len(),
{
    if vs.len() == 0 {
        (Seq::empty(), s)
    } else {
        let (ev, rest) = push_all(s, vs.drop_last());
        (ev.push(rest[0]), rest.drop_first().push(vs.last()))
    }
}

/// A history evicts in first-in, first-out order: pushing `vs` into one holding
/// `s` evicts the first `vs.len()` samples of `s + vs` and keeps the rest. In
/// particular, after a full turn of `s.len() + 1` pushes, the last eviction is
/// the first value pushed.
pub proof fn lemma_eviction_fifo<T>(s: Seq<T>, vs: Seq<T>)
    requires
        s.len() > 0,
    ensures
        push_all(s, vs).0 == (s + vs).take(vs.len() as int),
        push_all(s, vs).1 == (s + vs).skip(vs.len() as int),
        vs.len() == s.len() + 1 ==> push_all(s, vs).0[s.len() as int] == vs[0],
    decreases vs.len(),
{
    if vs.len() > 0 {
        lemma_eviction_fifo(s, vs.drop_last());
        let k = vs.len() - 1;
        assert((s + vs.drop_last()).take(k) =~= (s + vs).take(k));
        assert(push_all(s, vs).0 =~= (s + vs).take(vs.len() as int));
        assert(push_all(s, vs).1 =~= (s + vs).skip(vs.len() as int));
    }
}

impl<T: Zero> Queue<T> {
    /// A buffer of `capacity` slots, each holding zero.
    pub fn with_capacity(capacity: usize) -> (r: Result<Self, DspError>)
        ensures
            match r {
                Ok(q) => {
                    &&& capacity > 0
                    &&& q.wf()
                    &&& q@ == Seq::new(capacity as nat, |i: int| T::spec_zero())
                    &&& q.cursor() == 0
                },
                Err(e) => capacity == 0 && e == DspError::InvalidConfiguration,
            },
    {
        if capacity == 0 {
            return Err(DspError::InvalidConfiguration);
        }
        let mut buf: Vec<T> = Vec::with_capacity(capacity);
        let mut i: usize = 0;
        while i < capacity
            invariant
                i <= capacity,
                buf@ == Seq::new(i as nat, |k: int| T::spec_zero()),
            decreases capacity - i,
        {
            buf.push(T::zero());
            i = i + 1;
            assert(buf@ =~= Seq::new(i as nat, |k: int| T::spec_zero()));
        }
        let q = Queue { head: 0, buf };
        assert(q@ =~= Seq::new(capacity as nat, |k: int| T::spec_zero()));
        Ok(q)
    }
}

impl<T: Copy> Queue<T> {
    /// The contents as two contiguous parts, `(older, newer)`, whose concatenation
    /// runs from the oldest sample to the newest. With the cursor at zero the
    /// whole buffer is the older part.
    pub fn as_slices(&self) -> (r: (&[T], &[T]))
        requires
            self.wf(),
        ensures
            r.0@ + r.1@ == self@,
            r.0@ == self@.subrange(0, self@.len() - self.cursor()),
            r.1@ == self@.subrange(self@.len() - self.cursor(), self@.len() as int),
    {
        let s = self.buf.as_slice();
        let older = vstd::slice::slice_subrange(s, self.head, s.len());
        let newer = vstd::slice::slice_subrange(s, 0, self.head);
        assert(older@ + newer@ =~= self@);
        assert(older@ =~= self@.subrange(0, self@.len() - self.cursor()));
        assert(newer@ =~= self@.subrange(self@.len() - self.cursor(), self@.len() as int));
        (older, newer)
    }

    /// Writes `value` over the oldest sample and returns the sample it replaced.
    pub fn push(&mut self, value: T) -> (r: T)
        requires
            old(self).wf(),
        ensures
            final(self).wf(),
            r == old(self)@[0],
            final(self)@ == old(self)@.drop_first().push(value),
            final(self).cursor() == (old(self).cursor() + 1) % (old(self)@.len() as nat),
    {
        let res = self.buf[self.head];
        let len = self.buf.len();
        self.buf.set(self.head, value);
        if self.head == len - 1 {
            self.head = 0;
            proof {
                vstd::arithmetic::div_mod::lemma_mod_self_0(len as int);
            }
        } else {
            self.head = self.head + 1;
            proof {
                vstd::arithmetic::div_mod::lemma_small_mod(self.head as nat, len as nat);
            }
        }
        assert(self@ =~= old(self)@.drop_first().push(value));
        res
    }

    /// The sample at position `k`, counting from the oldest.
    pub fn get(&self, k: usize) -> (r: T)
        requires
            self.wf(),
            k < self@.len(),
        ensures
            r == self@[k as int],
    {
        let len = self.buf.len();
        if k < len - self.head {
            self.buf[self.head + k]
        } else {
            self.buf[k - (len - self.head)]
        }
    }

    /// The contents from the oldest sample to the newest, as a fresh vector.
    pub fn iter(&self) -> (r: Vec<T>)
        requires
            self.wf(),
        ensures
            r@ == self@,
    {
        let (a, b) = self.as_slices();
        let mut out: Vec<T> = Vec::with_capacity(self.buf.len());
        let mut i: usize = 0;
        while i < a.len()
            invariant
                i <= a@.len(),
                out@ == a@.subrange(0, i as int),
            decreases a@.len() - i,
        {
            out.push(a[i]);
            i = i + 1;
            assert(out@ =~= a@.subrange(0, i as int));
        }
        let mut j: usize = 0;
        while j < b.len()
            invariant
                j <= b@.len(),
                out@ == a@ + b@.subrange(0, j as int),
            decreases b@.len() - j,
        {
            out.push(b[j]);
            j = j + 1;
            assert(out@ =~= a@ + b@.subrange(0, j as int));
        }
        assert(out@ =~= a@ + b@);
        out
    }
}

} // verus!
