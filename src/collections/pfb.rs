use vstd::prelude::*;
use crate::error::DspError;
use crate::zero::Zero;

verus! {

/// How many zeros bring a length `m` up to the next multiple of `n`.
pub open spec fn pad_len(m: nat, n: nat) -> nat
    recommends
        n > 0,
{
    if m % n == 0 {
        0
    } else {
        (n - m % n) as nat
    }
}

/// The number of taps in each of `n` phases of a filter with `m` taps.
pub open spec fn row_len(m: nat, n: nat) -> nat
    recommends
        n > 0,
{
    (m + pad_len(m, n)) / n
}

/// The taps `h` followed by enough zeros to make their number a multiple of `n`.
pub open spec fn padded<H: Zero>(h: Seq<H>, n: nat) -> Seq<H> {
    h + Seq::new(pad_len(h.len(), n), |i: int| H::spec_zero())
}

/// The polyphase decomposition of `h` into `n` phases: phase `i` holds the padded
/// taps at positions `i, i + n, i + 2n, ...`.
pub open spec fn phase_rows<H: Zero>(h: Seq<H>, n: nat) -> Seq<Seq<H>> {
    Seq::new(
        n,
        |i: int| Seq::new(row_len(h.len(), n), |j: int| padded(h, n)[i + j * n]),
    )
}

/// Reads the phases back in interleaved order: `rows[0][0], rows[1][0], ...,
/// rows[n-1][0], rows[0][1], ...`.
pub open spec fn interleave<H>(rows: Seq<Seq<H>>, len: nat) -> Seq<H> {
    Seq::new(
        rows.len() * len,
        |k: int| rows[k % (rows.len() as int)][k / (rows.len() as int)],
    )
}

/// Padding brings a length to a multiple of `n`, and each phase then holds
/// `m / n` taps, rounded up.
pub proof fn lemma_padded_len(m: nat, n: nat)
    requires
        n > 0,
    ensures
        (m + pad_len(m, n)) % n == 0,
        row_len(m, n) * n == m + pad_len(m, n),
        row_len(m, n) == if m % n == 0 {
            m / n
        } else {
            m / n + 1
        },
        pad_len(m, n) < n,
{
    let q = (m / n) as int;
    let r = (m % n) as int;
    vstd::arithmetic::div_mod::lemma_fundamental_div_mod(m as int, n as int);
    assert(m == q * n + r) by (nonlinear_arith)
        requires
            m == n * q + r,
    ;
    if r != 0 {
        assert(m + pad_len(m, n) == (q + 1) * n + 0) by (nonlinear_arith)
            requires
                m == q * n + r,
                pad_len(m, n) == n - r,
        ;
        vstd::arithmetic::div_mod::lemma_fundamental_div_mod_converse(
            (m + pad_len(m, n)) as int,
            n as int,
            q + 1,
            0,
        );
    } else {
        vstd::arithmetic::div_mod::lemma_fundamental_div_mod_converse(m as int, n as int, q, 0);
    }
}

/// Reading the phases of `h` back in interleaved order gives `h` followed by
/// `pad_len(h.len(), n)` zeros.
pub proof fn lemma_decompose_round_trip<H: Zero>(h: Seq<H>, n: nat)
    requires
        n > 0,
    ensures
        interleave(phase_rows(h, n), row_len(h.len(), n)) == padded(h, n),
{
    let rows = phase_rows(h, n);
    let rl = row_len(h.len(), n);
    lemma_padded_len(h.len(), n);
    let left = interleave(rows, rl);
    let right = padded(h, n);
    assert(left.len() == right.len()) by (nonlinear_arith)
        requires
            left.len() == n * rl,
            right.len() == h.len() + pad_len(h.len(), n),
            rl * n == h.len() + pad_len(h.len(), n),
    ;
    assert forall|k: int| 0 <= k < left.len() implies left[k] == right[k] by {
        let ni = n as int;
        vstd::arithmetic::div_mod::lemma_fundamental_div_mod(k, ni);
        let q = k / ni;
        let r = k % ni;
        vstd::arithmetic::div_mod::lemma_div_pos_is_pos(k, ni);
        if q >= rl {
            vstd::arithmetic::mul::lemma_mul_inequality(rl as int, q, ni);
            assert(k >= rl * ni) by (nonlinear_arith)
                requires
                    k == ni * q + r,
                    0 <= r,
                    rl * ni <= q * ni,
            ;
            assert(false);
        }
        assert(r + q * ni == k) by (nonlinear_arith)
            requires
                k == ni * q + r,
        ;
    }
    assert(left =~= right);
}

/// Splits `h` into `n` phases; fails when `n` is zero.
pub fn decompose<H: Zero>(h: &[H], n: usize) -> (r: Result<Vec<Vec<H>>, DspError>)
    ensures
        match r {
            Ok(rows) => {
                &&& n > 0
                &&& rows@.len() == n
                &&& forall|i: int| 0 <= i < n ==> (#[trigger] rows@[i])@ == phase_rows(h@, n as nat)[i]
            },
            Err(e) => n == 0 && e == DspError::InvalidConfiguration,
        },
{
    if n == 0 {
        return Err(DspError::InvalidConfiguration);
    }
    let m = h.len();
    proof {
        if n == 1 {
            vstd::arithmetic::div_mod::lemma_fundamental_div_mod_converse(m as int, 1, m as int, 0);
        } else if m == 0 {
            vstd::arithmetic::div_mod::lemma_fundamental_div_mod_converse(0, n as int, 0, 0);
        } else {
            vstd::arithmetic::div_mod::lemma_div_decreases(m as int, n as int);
        }
    }
    let rl: usize = if m % n == 0 {
        m / n
    } else {
        m / n + 1
    };
    proof {
        lemma_padded_len(m as nat, n as nat);
    }
    let ghost total = rl * n;
    let ghost spec_rows = phase_rows(h@, n as nat);
    let mut rows: Vec<Vec<H>> = Vec::with_capacity(n);
    let mut i: usize = 0;
    while i < n
        invariant
            0 < n,
            i <= n,
            m == h@.len(),
            rl == row_len(m as nat, n as nat),
            total == rl * n,
            total == m + pad_len(m as nat, n as nat),
            pad_len(m as nat, n as nat) < n,
            spec_rows == phase_rows(h@, n as nat),
            rows@.len() == i,
            forall|a: int| 0 <= a < i ==> (#[trigger] rows@[a])@ == spec_rows[a],
        decreases n - i,
    {
        let mut row: Vec<H> = Vec::with_capacity(rl);
        let mut j: usize = 0;
        let mut k: usize = if i < m {
            i
        } else {
            m
        };
        assert(i + 0 * n == i) by (nonlinear_arith);
        while j < rl
            invariant
                0 < n,
                i < n,
                j <= rl,
                m == h@.len(),
                rl == row_len(m as nat, n as nat),
                total == rl * n,
                total == m + pad_len(m as nat, n as nat),
                pad_len(m as nat, n as nat) < n,
                j < rl ==> if i + j * n < m {
                    k == i + j * n
                } else {
                    k == m
                },
                row@.len() == j,
                forall|b: int| 0 <= b < j ==> #[trigger] row@[b] == padded(h@, n as nat)[i + b * n],
            decreases rl - j,
        {
            assert(i + j * n < total) by (nonlinear_arith)
                requires
                    i < n,
                    j < rl,
                    total == rl * n,
            ;
            if k < m {
                row.push(h[k]);
            } else {
                row.push(H::zero());
            }
            assert(i + (j + 1) * n == i + j * n + n) by (nonlinear_arith);
            if j + 1 < rl {
                if k < m && n <= m - k {
                    k = k + n;
                } else {
                    k = m;
                }
            }
            j = j + 1;
        }
        assert(row@ =~= spec_rows[i as int]);
        rows.push(row);
        i = i + 1;
    }
    Ok(rows)
}

/// A polyphase filter bank: `n` phases of equal length, indexed cyclically.
#[derive(Clone, Debug)]
pub struct PFB<H> {
    rows: Vec<Vec<H>>,
}

impl<H> View for PFB<H> {
    type V = Seq<Seq<H>>;

    closed spec fn view(&self) -> Seq<Seq<H>> {
        Seq::new(self.rows@.len(), |i: int| self.rows@[i]@)
    }
}

impl<H: Zero> PFB<H> {
    /// The bank of `h` split into `n` phases; fails when `n` is zero.
    pub fn with_taps(h: &[H], n: usize) -> (r: Result<Self, DspError>)
        ensures
            match r {
                Ok(pfb) => n > 0 && pfb@ == phase_rows(h@, n as nat) && pfb.wf(),
                Err(e) => n == 0 && e == DspError::InvalidConfiguration,
            },
    {
        match decompose(h, n) {
            Ok(rows) => {
                let pfb = PFB { rows };
                assert(pfb@ =~= phase_rows(h@, n as nat));
                Ok(pfb)
            },
            Err(e) => Err(e),
        }
    }
}

impl<H> PFB<H> {
    /// At least one phase, all phases of one length.
    pub open spec fn wf(&self) -> bool {
        &&& self@.len() > 0
        &&& forall|i: int| 0 <= i < self@.len() ==> (#[trigger] self@[i]).len() == self@[0].len()
    }

    /// The phase selected by any integer index, taken modulo the number of phases.
    pub open spec fn spec_row(&self, index: int) -> Seq<H>
        recommends
            self.wf(),
    {
        self@[index % (self@.len() as int)]
    }

    /// Phase indices form a cyclic group: any integer index selects the same phase
    /// as its residue modulo the number of phases.
    pub proof fn lemma_row_cyclic(&self, k: int)
        requires
            self.wf(),
        ensures
            0 <= k % (self@.len() as int) < self@.len(),
            self.spec_row(k) == self.spec_row(k % (self@.len() as int)),
    {
        let n = self@.len() as int;
        vstd::arithmetic::div_mod::lemma_mod_bound(k, n);
        vstd::arithmetic::div_mod::lemma_mod_twice(k, n);
    }

    /// The number of phases and the number of taps in each.
    pub fn dims(&self) -> (r: (usize, usize))
        requires
            self.wf(),
        ensures
            r.0 == self@.len(),
            r.1 == self@[0].len(),
    {
        (self.rows.len(), self.rows[0].len())
    }

    /// The phase at `index` modulo the number of phases.
    pub fn row(&self, index: usize) -> (r: &[H])
        requires
            self.wf(),
        ensures
            r@ == self.spec_row(index as int),
    {
        let n = self.rows.len();
        let i = if index < n {
            index
        } else {
            index % n
        };
        proof {
            if index < n {
                vstd::arithmetic::div_mod::lemma_small_mod(index as nat, n as nat);
            }
        }
        self.rows[i].as_slice()
    }

    /// The phase at a signed `index`, normalised into `[0, n)`.
    pub fn row_signed(&self, index: i64) -> (r: &[H])
        requires
            self.wf(),
        ensures
            r@ == self.spec_row(index as int),
    {
        let n = self.rows.len();
        let i: usize = if index >= 0 {
            ((index as u64) % (n as u64)) as usize
        } else {
            let back = (((-(index as i128)) as u128) % (n as u128)) as usize;
            if back == 0 {
                0
            } else {
                n - back
            }
        };
        proof {
            let ni = n as int;
            let k = index as int;
            if k < 0 {
                let q = (-k) / ni;
                let back = (-k) % ni;
                vstd::arithmetic::div_mod::lemma_fundamental_div_mod(-k, ni);
                if back == 0 {
                    assert(k == (-q) * ni + 0) by (nonlinear_arith)
                        requires
                            -k == ni * q + back,
                            back == 0,
                    ;
                    vstd::arithmetic::div_mod::lemma_fundamental_div_mod_converse(k, ni, -q, 0);
                } else {
                    assert(k == (-q - 1) * ni + (ni - back)) by (nonlinear_arith)
                        requires
                            -k == ni * q + back,
                    ;
                    vstd::arithmetic::div_mod::lemma_fundamental_div_mod_converse(
                        k,
                        ni,
                        -q - 1,
                        ni - back,
                    );
                }
            }
        }
        self.rows[i].as_slice()
    }
}

/// The phase before phase `i` in a cycle of `n` phases: `i - 1` modulo `n`.
pub open spec fn prev_phase(i: int, n: int) -> int {
    if i == 0 {
        n - 1
    } else {
        i - 1
    }
}

impl PFB<i32> {
    /// The bank of phase-to-phase differences: each tap of phase `i` minus the tap
    /// at the same position of the previous phase, phase 0 following the last.
    pub fn diff(&self) -> (r: PFB<i32>)
        requires
            self.wf(),
            forall|i: int, j: int|
                0 <= i < self@.len() && 0 <= j < self@[0].len() ==> i32::MIN <= #[trigger] self@[i][j]
                    - self@[prev_phase(i, self@.len() as int)][j] <= i32::MAX,
        ensures
            r.wf(),
            r@.len() == self@.len(),
            forall|i: int| 0 <= i < r@.len() ==> (#[trigger] r@[i]).len() == self@[0].len(),
            forall|i: int, j: int|
                0 <= i < r@.len() && 0 <= j < self@[0].len() ==> #[trigger] r@[i][j] == self@[i][j]
                    - self@[prev_phase(i, self@.len() as int)][j],
    {
        let n = self.rows.len();
        let len = self.rows[0].len();
        let mut rows: Vec<Vec<i32>> = Vec::with_capacity(n);
        let mut i: usize = 0;
        while i < n
            invariant
                self.wf(),
                n == self@.len(),
                len == self@[0].len(),
                i <= n,
                rows@.len() == i,
                forall|a: int| 0 <= a < i ==> (#[trigger] rows@[a])@.len() == len,
                forall|a: int, j: int|
                    0 <= a < i && 0 <= j < len ==> #[trigger] rows@[a]@[j] == self@[a][j]
                        - self@[prev_phase(a, n as int)][j],
                forall|a: int, j: int|
                    0 <= a < n && 0 <= j < len ==> i32::MIN <= #[trigger] self@[a][j]
                        - self@[prev_phase(a, n as int)][j] <= i32::MAX,
            decreases n - i,
        {
            let p = if i == 0 {
                n - 1
            } else {
                i - 1
            };
            let cur = &self.rows[i];
            let before = &self.rows[p];
            assert(cur@ == self@[i as int]);
            assert(before@ == self@[p as int]);
            let mut row: Vec<i32> = Vec::with_capacity(len);
            let mut j: usize = 0;
            while j < len
                invariant
                    self.wf(),
                    n == self@.len(),
                    len == self@[0].len(),
                    i < n,
                    p == prev_phase(i as int, n as int),
                    cur@ == self@[i as int],
                    before@ == self@[p as int],
                    j <= len,
                    row@.len() == j,
                    forall|b: int| 0 <= b < j ==> #[trigger] row@[b] == self@[i as int][b] - self@[p as int][b],
                    forall|a: int, b: int|
                        0 <= a < n && 0 <= b < len ==> i32::MIN <= #[trigger] self@[a][b]
                            - self@[prev_phase(a, n as int)][b] <= i32::MAX,
                decreases len - j,
            {
                assert(i32::MIN <= self@[i as int][j as int] - self@[prev_phase(i as int, n as int)][j as int] <= i32::MAX);
                row.push(cur[j] - before[j]);
                j = j + 1;
            }
            rows.push(row);
            i = i + 1;
        }
        let r = PFB { rows };
        assert(r@.len() == n);
        r
    }
}

} // verus!
