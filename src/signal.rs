use vstd::prelude::*;

use crate::convolution::{conv_at, conv_fits, conv_len, conv_partial};

verus! {

/// The zero-padded reading of a sample sequence: the stored sample inside
/// `0..s.len()`, zero everywhere else.
pub open spec fn sample_at(s: Seq<i64>, i: int) -> int {
    if 0 <= i < s.len() {
        s[i] as int
    } else {
        0
    }
}

/// Every sample-wise sum of `a` and `b`, each zero-extended to the longer
/// length, fits in an `i64`.
pub open spec fn sum_fits(a: Seq<i64>, b: Seq<i64>) -> bool {
    forall|i: int|
        0 <= i < a.len() || 0 <= i < b.len() ==> i64::MIN <= #[trigger] sample_at(a, i)
            + sample_at(b, i) <= i64::MAX
}

/// The longer of two lengths.
pub open spec fn max_len(a: int, b: int) -> int {
    if a >= b {
        a
    } else {
        b
    }
}

/// Construction read-back: the zero-padded reading of a sample list gives back
/// each sample at its own position, and zero at every position below 0 or at
/// or beyond its length. A signal built by `Signal::new(values)` holds exactly
/// `values`, so `at` and `at_signed` on it read these.
pub proof fn lemma_read_back(values: Seq<i64>)
    ensures
        forall|i: int| 0 <= i < values.len() ==> #[trigger] sample_at(values, i) == values[i],
        forall|i: int| (i < 0 || i >= values.len()) ==> #[trigger] sample_at(values, i) == 0,
{
}

/// A finite sequence of integer samples, read as zero outside its bounds.
pub trait Signal: Sized {
    /// The samples, in order.
    spec fn samples(&self) -> Seq<i64>;

    /// Builds a signal that holds exactly `values`.
    fn new(values: Vec<i64>) -> (r: Self)
        ensures
            r.samples() == values@,
    ;

    /// The number of samples.
    fn len(&self) -> (r: usize)
        ensures
            r == self.samples().len(),
    ;

    /// Zero-padded read at an unsigned position.
    fn at(&self, index: usize) -> (r: i64)
        ensures
            r == sample_at(self.samples(), index as int),
    ;

    /// Zero-padded read at a signed position.
    fn at_signed(&self, index: i64) -> (r: i64)
        ensures
            r == sample_at(self.samples(), index as int),
    ;

    /// Convolves this signal with the kernel `rhs`: output position `i` holds
    /// `sum_j rhs[j] * self[i - j]` over `j` in `0..rhs.len()`.
    fn fold(&self, rhs: &Self) -> (r: Self)
        requires
            self.samples().len() + rhs.samples().len() >= 1,
            self.samples().len() + rhs.samples().len() <= usize::MAX,
            conv_fits(self.samples(), rhs.samples()),
        ensures
            r.samples().len() == conv_len(
                self.samples().len() as int,
                rhs.samples().len() as int,
            ),
            forall|i: int|
                0 <= i < r.samples().len() ==> r.samples()[i] == conv_at(
                    self.samples(),
                    rhs.samples(),
                    i,
                ),
    {
        let n = self.len();
        let m = rhs.len();
        let out_len = n + m - 1;
        let mut output: Vec<i64> = Vec::new();
        let mut i: usize = 0;
        while i < out_len
            invariant
                n == self.samples().len(),
                m == rhs.samples().len(),
                out_len == conv_len(n as int, m as int),
                conv_fits(self.samples(), rhs.samples()),
                i <= out_len,
                output@.len() == i,
                forall|k: int|
                    0 <= k < i ==> output@[k] == conv_at(self.samples(), rhs.samples(), k),
            decreases out_len - i,
        {
            let mut sum: i64 = 0;
            let mut j: usize = 0;
            while j < m
                invariant
                    n == self.samples().len(),
                    m == rhs.samples().len(),
                    out_len == conv_len(n as int, m as int),
                    conv_fits(self.samples(), rhs.samples()),
                    i < out_len,
                    j <= m,
                    sum == conv_partial(self.samples(), rhs.samples(), i as int, j as int),
                decreases m - j,
            {
                let h = rhs.at(j);
                let x = if j <= i {
                    self.at(i - j)
                } else {
                    0
                };
                assert(x == sample_at(self.samples(), i - j));
                let prod: i128 = h as i128 * x as i128;
                let next: i128 = sum as i128 + prod;
                assert(conv_partial(self.samples(), rhs.samples(), i as int, j + 1) == next);
                assert(i64::MIN <= conv_partial(self.samples(), rhs.samples(), i as int, j + 1)
                    <= i64::MAX);
                sum = next as i64;
                j = j + 1;
            }
            output.push(sum);
            i = i + 1;
        }
        Self::new(output)
    }
}

/// A signal that holds its samples in a vector and has no period.
#[derive(Debug, PartialEq, Clone)]
pub struct AperiodicSignal {
    values: Vec<i64>,
}

impl Signal for AperiodicSignal {
    closed spec fn samples(&self) -> Seq<i64> {
        self.values@
    }

    fn new(values: Vec<i64>) -> (r: Self) {
        AperiodicSignal { values }
    }

    fn len(&self) -> (r: usize) {
        self.values.len()
    }

    fn at(&self, index: usize) -> (r: i64) {
        if index < self.values.len() {
            self.values[index]
        } else {
            0
        }
    }

    fn at_signed(&self, index: i64) -> (r: i64) {
        if index < 0 || index as u64 >= self.values.len() as u64 {
            0
        } else {
            self.values[index as usize]
        }
    }
}

impl AperiodicSignal {
    /// The stored samples.
    pub fn values(&self) -> (r: &Vec<i64>)
        ensures
            r@ == self.samples(),
    {
        &self.values
    }

    /// Sample-wise sum, the shorter operand extended with zeros: the result has
    /// the longer length.
    pub fn add(self, rhs: AperiodicSignal) -> (r: AperiodicSignal)
        requires
            sum_fits(self.samples(), rhs.samples()),
        ensures
            r.samples().len() == max_len(
                self.samples().len() as int,
                rhs.samples().len() as int,
            ),
            forall|i: int|
                0 <= i < r.samples().len() ==> r.samples()[i] == sample_at(self.samples(), i)
                    + sample_at(rhs.samples(), i),
    {
        let n = if self.len() >= rhs.len() {
            self.len()
        } else {
            rhs.len()
        };
        let mut out: Vec<i64> = Vec::new();
        let mut i: usize = 0;
        while i < n
            invariant
                n == max_len(self.samples().len() as int, rhs.samples().len() as int),
                sum_fits(self.samples(), rhs.samples()),
                i <= n,
                out@.len() == i,
                forall|k: int|
                    0 <= k < i ==> out@[k] == sample_at(self.samples(), k) + sample_at(
                        rhs.samples(),
                        k,
                    ),
            decreases n - i,
        {
            let a = self.at(i);
            let b = rhs.at(i);
            assert(i64::MIN <= sample_at(self.samples(), i as int) + sample_at(
                rhs.samples(),
                i as int,
            ) <= i64::MAX);
            out.push(a + b);
            i = i + 1;
        }
        AperiodicSignal::new(out)
    }
}

/// `a + b`: the sample-wise sum, the shorter operand extended with zeros.
impl std::ops::Add<AperiodicSignal> for AperiodicSignal {
    type Output = AperiodicSignal;

    fn add(self, rhs: AperiodicSignal) -> (r: AperiodicSignal)
        ensures
            r.samples().len() == max_len(
                self.samples().len() as int,
                rhs.samples().len() as int,
            ),
            forall|i: int|
                0 <= i < r.samples().len() ==> r.samples()[i] == sample_at(self.samples(), i)
                    + sample_at(rhs.samples(), i),
    {
        AperiodicSignal::add(self, rhs)
    }
}

/// What `a + b` asks of its operands: every sum fits in an `i64`. The result
/// is stated by the `ensures` of `add` in the impl above; `obeys_add_spec` is
/// false, so `add_spec` is unused and claims nothing.
impl vstd::std_specs::ops::AddSpecImpl<AperiodicSignal> for AperiodicSignal {
    open spec fn obeys_add_spec() -> bool {
        false
    }

    open spec fn add_req(self, rhs: AperiodicSignal) -> bool {
        sum_fits(self.samples(), rhs.samples())
    }

    open spec fn add_spec(self, rhs: AperiodicSignal) -> AperiodicSignal {
        self
    }
}

} // verus!
