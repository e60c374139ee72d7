use vstd::prelude::*;
use crate::collections::pfb::{lemma_padded_len, phase_rows, row_len, PFB};
use crate::collections::queue::Queue;
use crate::error::DspError;
use crate::filters::fir::FIR;
use crate::math::diff;
use crate::math::dotprod::{dot_spec, dot_upto, lemma_dot_upto_bound, lemma_product_bound, max_product};

verus! {

/// A resample rate: `outputs` output samples for every `inputs` input samples.
#[derive(Clone, Copy, Debug, PartialEq, Eq, Structural)]
pub struct Rate {
    pub outputs: u32,
    pub inputs: u32,
}

/// An output sample with the exact value `numer / denom`.
#[derive(Clone, Copy, Debug, PartialEq, Eq, Structural)]
pub struct Scaled {
    pub numer: i128,
    pub denom: u32,
}

/// The taps of the derivative bank: the first difference of `h`, extended by one
/// zero at its tail so that it has as many taps as `h` and both banks have rows
/// of one length.
pub open spec fn deriv_taps(h: Seq<i32>) -> Seq<i32> {
    Seq::new(
        h.len(),
        |k: int|
            if k + 1 < h.len() {
                (h[k + 1] - h[k]) as i32
            } else {
                0i32
            },
    )
}

/// The inner product of a phase row with the history, newest sample against the
/// row's first tap.
pub open spec fn row_response(row: Seq<i32>, history: Seq<i32>) -> int {
    dot_spec(row.reverse(), history)
}

/// An interpolated output scaled by `scale`: `base * scale + mu * deriv`, which is
/// `scale` times `base + (mu / scale) * deriv`.
pub open spec fn interpolate(base: int, deriv: int, mu: int, scale: int) -> int {
    base * scale + mu * deriv
}

/// A FIR filter that resamples at a rational rate by interpolating between the
/// phases of a polyphase filter bank. A clone owns copies of both banks.
#[derive(Clone, Debug)]
pub struct Arb<H, X> {
    /// Base filter bank.
    pfb: PFB<H>,
    /// Derivative filter bank.
    dpfb: PFB<H>,
    /// Previous input samples.
    history: Queue<X>,
    /// Resample rate.
    rate: Rate,
    /// Current phase, in units of `1 / rate.outputs` input samples.
    phase: u64,
    /// Input samples still to be taken before the next output.
    pending: u64,
}

impl<H, X> Arb<H, X> {
    pub closed spec fn spec_bank(&self) -> Seq<Seq<H>> {
        self.pfb@
    }

    pub closed spec fn spec_dbank(&self) -> Seq<Seq<H>> {
        self.dpfb@
    }

    /// The input samples held, oldest first.
    pub closed spec fn spec_history(&self) -> Seq<X> {
        self.history@
    }

    pub closed spec fn spec_rate(&self) -> Rate {
        self.rate
    }

    /// The phase is `spec_phase() / spec_rate().outputs` input samples.
    pub closed spec fn spec_phase(&self) -> nat {
        self.phase as nat
    }

    pub closed spec fn spec_pending(&self) -> nat {
        self.pending as nat
    }

    /// Two banks of at least two phases and one row length, a history as long as
    /// a row, a positive rate and a phase below one input sample. At unity rate
    /// the phase stays at zero.
    pub closed spec fn wf(&self) -> bool {
        &&& self.pfb.wf()
        &&& self.dpfb.wf()
        &&& self.history.wf()
        &&& self.pfb@.len() >= 2
        &&& self.dpfb@.len() == self.pfb@.len()
        &&& self.dpfb@[0].len() == self.pfb@[0].len()
        &&& self.history@.len() == self.pfb@[0].len()
        &&& self.history@.len() <= u32::MAX
        &&& self.rate.outputs > 0
        &&& self.rate.inputs > 0
        &&& self.phase < self.rate.outputs
        &&& self.rate.outputs == self.rate.inputs ==> self.phase == 0
    }

    /// The phase row selected at the current phase: the integer part of
    /// `phase * n`.
    pub open spec fn spec_branch(&self) -> int {
        (self.spec_phase() * self.spec_bank().len()) as int / (self.spec_rate().outputs as int)
    }

    /// The interpolation weight toward the next phase, in units of
    /// `1 / rate.outputs`: the fractional part of `phase * n`.
    pub open spec fn spec_mu(&self) -> int {
        (self.spec_phase() * self.spec_bank().len()) as int % (self.spec_rate().outputs as int)
    }
}

impl Arb<i32, i32> {
    /// The output at phase row `branch` and weight `mu`, scaled by `rate.outputs`.
    pub open spec fn value_at(&self, branch: int, mu: int) -> int {
        interpolate(
            row_response(self.spec_bank()[branch], self.spec_history()),
            row_response(self.spec_dbank()[branch], self.spec_history()),
            mu,
            self.spec_rate().outputs as int,
        )
    }

    /// The output at the current phase, scaled by `rate.outputs`.
    pub open spec fn spec_value(&self) -> int {
        self.value_at(self.spec_branch(), self.spec_mu())
    }

    /// A resampler with the taps `h` split into `n` phases; the derivative bank
    /// splits `deriv_taps(h)` the same way. Fails when `n < 2`, when either side of
    /// the rate is zero, or when `h` is empty.
    pub fn with_taps(h: &[i32], n: usize, resamp_rate: Rate) -> (r: Result<Self, DspError>)
        requires
            h@.len() <= u32::MAX,
            forall|k: int|
                0 <= k < h@.len() - 1 ==> i32::MIN <= #[trigger] h@[k + 1] - h@[k] <= i32::MAX,
        ensures
            match r {
                Ok(a) => {
                    &&& n >= 2
                    &&& resamp_rate.outputs > 0
                    &&& resamp_rate.inputs > 0
                    &&& h@.len() > 0
                    &&& a.wf()
                    &&& a.spec_bank() == phase_rows(h@, n as nat)
                    &&& a.spec_dbank() == phase_rows(deriv_taps(h@), n as nat)
                    &&& a.spec_history() == Seq::new(row_len(h@.len(), n as nat), |i: int| 0i32)
                    &&& a.spec_rate() == resamp_rate
                    &&& a.spec_phase() == 0
                    &&& a.spec_pending() == 0
                },
                Err(e) => {
                    &&& e == DspError::InvalidConfiguration
                    &&& (n < 2 || resamp_rate.outputs == 0 || resamp_rate.inputs == 0 || h@.len()
                        == 0)
                },
            },
    {
        if n < 2 || resamp_rate.outputs == 0 || resamp_rate.inputs == 0 || h.len() == 0 {
            return Err(DspError::InvalidConfiguration);
        }
        let pfb = match PFB::with_taps(h, n) {
            Ok(p) => p,
            Err(_) => vstd::pervasive::unreached(),
        };
        let mut dh = diff(h);
        dh.push(0);
        assert(dh@ =~= deriv_taps(h@));
        let dpfb = match PFB::with_taps(dh.as_slice(), n) {
            Ok(p) => p,
            Err(_) => vstd::pervasive::unreached(),
        };
        let (_, len) = pfb.dims();
        proof {
            let m = h@.len();
            lemma_padded_len(m, n as nat);
            assert(0 < len <= m) by (nonlinear_arith)
                requires
                    len * n == m + crate::collections::pfb::pad_len(m, n as nat),
                    crate::collections::pfb::pad_len(m, n as nat) < n,
                    0 < m,
                    2 <= n,
            ;
        }
        let history = match Queue::with_capacity(len) {
            Ok(q) => q,
            Err(_) => vstd::pervasive::unreached(),
        };
        Ok(Arb { pfb, dpfb, history, rate: resamp_rate, phase: 0, pending: 0 })
    }

    /// Whether the resampler waits for an input sample before its next output.
    pub fn needs_input(&self) -> (r: bool)
        ensures
            r == (self.spec_pending() > 0),
    {
        self.pending > 0
    }

    /// Offers one input sample. It is taken, and `true` returned, only while the
    /// resampler waits for input; otherwise nothing changes.
    pub fn feed(&mut self, x: i32) -> (r: bool)
        requires
            old(self).wf(),
        ensures
            final(self).wf(),
            r == (old(self).spec_pending() > 0),
            final(self).spec_bank() == old(self).spec_bank(),
            final(self).spec_dbank() == old(self).spec_dbank(),
            final(self).spec_rate() == old(self).spec_rate(),
            final(self).spec_phase() == old(self).spec_phase(),
            r ==> final(self).spec_history() == old(self).spec_history().drop_first().push(x),
            r ==> final(self).spec_pending() == old(self).spec_pending() - 1,
            !r ==> final(self).spec_history() == old(self).spec_history(),
            !r ==> final(self).spec_pending() == old(self).spec_pending(),
    {
        if self.pending == 0 {
            return false;
        }
        proof {
            self.history.lemma_wf();
        }
        self.history.push(x);
        self.pending = self.pending - 1;
        true
    }

    /// Produces the output at the current phase, or reports `InputExhausted` while
    /// input is awaited. After an output the phase advances by `1 / rate` input
    /// samples; each whole input sample crossed is awaited before the next output.
    pub fn next(&mut self) -> (r: Result<Scaled, DspError>)
        requires
            old(self).wf(),
        ensures
            final(self).wf(),
            final(self).spec_bank() == old(self).spec_bank(),
            final(self).spec_dbank() == old(self).spec_dbank(),
            final(self).spec_rate() == old(self).spec_rate(),
            final(self).spec_history() == old(self).spec_history(),
            old(self).spec_pending() > 0 ==> {
                &&& r == Err::<Scaled, DspError>(DspError::InputExhausted)
                &&& final(self).spec_phase() == old(self).spec_phase()
                &&& final(self).spec_pending() == old(self).spec_pending()
            },
            old(self).spec_pending() == 0 ==> {
                &&& r == Ok::<Scaled, DspError>(
                    (Scaled { numer: old(self).spec_value() as i128, denom: old(self).spec_rate().outputs }),
                )
                &&& final(self).spec_phase() == (old(self).spec_phase()
                    + old(self).spec_rate().inputs) as int % (old(self).spec_rate().outputs as int)
                &&& final(self).spec_pending() == (old(self).spec_phase()
                    + old(self).spec_rate().inputs) as int / (old(self).spec_rate().outputs as int)
            },
    {
        if self.pending > 0 {
            return Err(DspError::InputExhausted);
        }
        let n = self.pfb.dims().0;
        let outputs = self.rate.outputs as u64;
        proof {
            assert(self.phase * n <= u32::MAX * usize::MAX) by (nonlinear_arith)
                requires
                    self.phase < outputs,
                    outputs <= u32::MAX,
                    n <= usize::MAX,
            ;
        }
        let idx = (self.phase as u128) * (n as u128);
        let branch_wide = idx / (outputs as u128);
        let mu = (idx % (outputs as u128)) as u64;
        proof {
            assert(idx < (outputs as int) * n) by (nonlinear_arith)
                requires
                    idx == self.phase * n,
                    self.phase < outputs,
                    n > 0,
            ;
            vstd::arithmetic::div_mod::lemma_fundamental_div_mod(idx as int, outputs as int);
            vstd::arithmetic::div_mod::lemma_mod_bound(idx as int, outputs as int);
            let q = idx as int / outputs as int;
            let rem = idx as int % outputs as int;
            if q >= n {
                vstd::arithmetic::mul::lemma_mul_inequality(n as int, q, outputs as int);
                assert(idx >= (outputs as int) * n) by (nonlinear_arith)
                    requires
                        idx == outputs * q + rem,
                        0 <= rem,
                        n * outputs <= q * outputs,
                ;
            }
        }
        let branch = branch_wide as usize;
        let base = response(self.pfb.row(branch), &self.history);
        let deriv = response(self.dpfb.row(branch), &self.history);
        proof {
            vstd::arithmetic::div_mod::lemma_small_mod(branch as nat, n as nat);
            let len = self.history@.len();
            lemma_response_bound(self.pfb@[branch as int], self.history@);
            lemma_response_bound(self.dpfb@[branch as int], self.history@);
            lemma_interpolate_bound(base as int, deriv as int, mu as int, outputs as int, len as int);
        }
        let numer = base * (outputs as i128) + (mu as i128) * deriv;
        let step = self.phase + self.rate.inputs as u64;
        self.pending = step / outputs;
        self.phase = step % outputs;
        proof {
            if self.rate.outputs == self.rate.inputs {
                vstd::arithmetic::div_mod::lemma_mod_self_0(outputs as int);
            }
        }
        Ok(Scaled { numer, denom: self.rate.outputs })
    }
}

/// Bounds a scaled interpolation from bounds on its inner products.
proof fn lemma_interpolate_bound(base: int, deriv: int, mu: int, scale: int, len: int)
    requires
        0 <= len <= u32::MAX,
        0 <= mu < scale <= u32::MAX,
        -(len * max_product()) <= base <= len * max_product(),
        -(len * max_product()) <= deriv <= len * max_product(),
    ensures
        i128::MIN <= interpolate(base, deriv, mu, scale) <= i128::MAX,
        i128::MIN <= base * scale <= i128::MAX,
        i128::MIN <= mu * deriv <= i128::MAX,
{
    let mp = max_product();
    let b = u32::MAX * mp;
    assert(len * mp <= b) by (nonlinear_arith)
        requires
            0 <= len <= u32::MAX,
            mp == 0x4000_0000_0000_0000,
            b == u32::MAX * mp,
    ;
    assert(-(b * u32::MAX) <= base * scale <= b * u32::MAX) by (nonlinear_arith)
        requires
            -b <= base <= b,
            0 < scale <= u32::MAX,
    ;
    assert(-(b * u32::MAX) <= mu * deriv <= b * u32::MAX) by (nonlinear_arith)
        requires
            -b <= deriv <= b,
            0 <= mu <= u32::MAX,
    ;
}

/// The response of a row of at most `u32::MAX` taps is at most that many products
/// in size.
proof fn lemma_response_bound(row: Seq<i32>, history: Seq<i32>)
    requires
        row.len() == history.len(),
    ensures
        -(history.len() * max_product()) <= row_response(row, history) <= history.len()
            * max_product(),
{
    lemma_dot_upto_bound(row.reverse(), history, history.len());
}

/// The inner product of `row`, last tap first, with the history, oldest sample
/// first.
fn response(row: &[i32], history: &Queue<i32>) -> (r: i128)
    requires
        history.wf(),
        row@.len() == history@.len(),
        history@.len() <= u32::MAX,
    ensures
        r == row_response(row@, history@),
{
    let len = row.len();
    let mut acc: i128 = 0;
    let mut k: usize = 0;
    while k < len
        invariant
            history.wf(),
            len == row@.len(),
            len == history@.len(),
            len <= u32::MAX,
            k <= len,
            acc == dot_upto(row@.reverse(), history@, k as nat),
        decreases len - k,
    {
        proof {
            lemma_dot_upto_bound(row@.reverse(), history@, k as nat);
            lemma_product_bound(row@[len - 1 - k], history@[k as int]);
            assert(k * max_product() <= u32::MAX * max_product()) by (nonlinear_arith)
                requires
                    k <= u32::MAX,
            ;
        }
        acc = acc + (row[len - 1 - k] as i128) * (history.get(k) as i128);
        k = k + 1;
    }
    acc
}

/// At unity rate the resampler always reads phase row 0 with weight 0, and its
/// output is that of a plain FIR filter whose taps are row 0, fed the same
/// samples.
pub proof fn lemma_unity_rate_matches_fir(a: &Arb<i32, i32>, f: &FIR<i32, i32>)
    requires
        a.wf(),
        a.spec_rate().outputs == a.spec_rate().inputs,
        f.spec_h() == a.spec_bank()[0].reverse(),
        f.spec_history() == a.spec_history(),
    ensures
        a.spec_branch() == 0,
        a.spec_mu() == 0,
        a.spec_value() == dot_spec(f.spec_h(), f.spec_history()) * (a.spec_rate().outputs as int),
{
    let s = a.spec_rate().outputs as int;
    assert(a.spec_phase() == 0);
    assert(a.spec_phase() * a.spec_bank().len() == 0) by (nonlinear_arith)
        requires
            a.spec_phase() == 0,
    ;
    vstd::arithmetic::div_mod::lemma_fundamental_div_mod_converse(0, s, 0, 0);
}

/// For a fixed history and phase row, the output is linear in the interpolation
/// weight: it grows by the derivative row's response for each unit of `mu`, so
/// equally spaced weights give equally spaced outputs.
pub proof fn lemma_interpolation_linear(a: &Arb<i32, i32>, branch: int, mu0: int, mu1: int, mu2: int)
    requires
        mu1 - mu0 == mu2 - mu1,
    ensures
        a.value_at(branch, mu1) == a.value_at(branch, 0) + mu1 * row_response(
            a.spec_dbank()[branch],
            a.spec_history(),
        ),
        a.value_at(branch, mu1) - a.value_at(branch, mu0) == a.value_at(branch, mu2) - a.value_at(
            branch,
            mu1,
        ),
{
    let d = row_response(a.spec_dbank()[branch], a.spec_history());
    assert(mu1 * d - mu0 * d == mu2 * d - mu1 * d) by (nonlinear_arith)
        requires
            mu1 - mu0 == mu2 - mu1,
    ;
}

} // verus!
