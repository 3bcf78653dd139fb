use vstd::prelude::*;

use crate::signal::{sample_at, Signal};

verus! {

/// Why a decomposition refused its input.
#[derive(Debug, PartialEq, Eq, Clone, Copy)]
pub enum SignalError {
    /// The signal has no samples, so its length cannot serve as a period.
    EmptySignal,
}

/// Sample-wise sum at position `j` of all the sequences in `parts`, each read
/// zero-padded.
pub open spec fn column_sum(parts: Seq<Seq<i64>>, j: int) -> int
    decreases parts.len(),
{
    if parts.len() == 0 {
        0
    } else {
        column_sum(parts.drop_last(), j) + sample_at(parts.last(), j)
    }
}

/// The `k`-th impulse component of `s`: `s[k]` at position `k`, zero elsewhere.
pub open spec fn impulse_component(s: Seq<i64>, k: int) -> Seq<i64> {
    Seq::new(s.len(), |j: int| if j == k { s[k] } else { 0i64 })
}

/// All impulse components of `s`, one per sample.
pub open spec fn impulse_parts(s: Seq<i64>) -> Seq<Seq<i64>> {
    Seq::new(s.len(), |k: int| impulse_component(s, k))
}

/// Splits a signal of `n` samples into `n` signals of `n` samples each; the
/// `i`-th holds `signal[i]` at position `i` and zero elsewhere.
pub fn impulse_decomposition<S: Signal>(signal: S) -> (r: Vec<S>)
    ensures
        r@.len() == signal.samples().len(),
        forall|k: int|
            0 <= k < r@.len() ==> (#[trigger] r@[k]).samples() == impulse_component(
                signal.samples(),
                k,
            ),
{
    let n = signal.len();
    let mut output: Vec<S> = Vec::new();
    let mut i: usize = 0;
    while i < n
        invariant
            n == signal.samples().len(),
            i <= n,
            output@.len() == i,
            forall|k: int|
                0 <= k < i ==> (#[trigger] output@[k]).samples() == impulse_component(
                    signal.samples(),
                    k,
                ),
        decreases n - i,
    {
        let mut new_values: Vec<i64> = Vec::new();
        let mut j: usize = 0;
        while j < n
            invariant
                n == signal.samples().len(),
                i < n,
                j <= n,
                new_values@.len() == j,
                forall|t: int|
                    0 <= t < j ==> new_values@[t] == impulse_component(signal.samples(), i as int)[t],
            decreases n - j,
        {
            if j == i {
                new_values.push(signal.at(i));
            } else {
                new_values.push(0);
            }
            j = j + 1;
        }
        assert(new_values@ =~= impulse_component(signal.samples(), i as int));
        output.push(S::new(new_values));
        i = i + 1;
    }
    output
}

/// Every difference of neighbouring samples `s[k] - s[k-1]` fits in an `i64`.
pub open spec fn step_fits(s: Seq<i64>) -> bool {
    forall|k: int| 1 <= k < s.len() ==> i64::MIN <= #[trigger] s[k] - s[k - 1] <= i64::MAX
}

/// The `k`-th step component of `s`: zero for `k == 0`; otherwise the step of
/// height `s[k] - s[k-1]` that starts at position `k`.
pub open spec fn step_component(s: Seq<i64>, k: int) -> Seq<i64> {
    Seq::new(
        s.len(),
        |j: int|
            if 1 <= k && k <= j {
                (s[k] - s[k - 1]) as i64
            } else {
                0i64
            },
    )
}

/// All step components of `s`, one per sample.
pub open spec fn step_parts(s: Seq<i64>) -> Seq<Seq<i64>> {
    Seq::new(s.len(), |k: int| step_component(s, k))
}

/// Splits a signal of `n` samples into `n` scaled, shifted unit steps of `n`
/// samples each. The first is all zero; the `i`-th (`i >= 1`) has height
/// `signal[i] - signal[i-1]` from position `i` on. An empty signal is refused.
pub fn step_decomposition<S: Signal>(signal: S) -> (r: Result<Vec<S>, SignalError>)
    requires
        step_fits(signal.samples()),
    ensures
        signal.samples().len() == 0 <==> r is Err,
        r is Err ==> r == Err::<Vec<S>, SignalError>(SignalError::EmptySignal),
        r is Ok ==> r->Ok_0@.len() == signal.samples().len(),
        r is Ok ==> forall|k: int|
            0 <= k < r->Ok_0@.len() ==> (#[trigger] r->Ok_0@[k]).samples() == step_component(
                signal.samples(),
                k,
            ),
{
    let n = signal.len();
    if n == 0 {
        return Err(SignalError::EmptySignal);
    }
    let mut output: Vec<S> = Vec::new();
    let mut i: usize = 0;
    while i < n
        invariant
            n == signal.samples().len(),
            step_fits(signal.samples()),
            i <= n,
            output@.len() == i,
            forall|k: int|
                0 <= k < i ==> (#[trigger] output@[k]).samples() == step_component(
                    signal.samples(),
                    k,
                ),
        decreases n - i,
    {
        let diff: i64 = if i == 0 {
            0
        } else {
            let a = signal.at(i);
            let b = signal.at(i - 1);
            assert(i64::MIN <= signal.samples()[i as int] - signal.samples()[i - 1] <= i64::MAX);
            a - b
        };
        let mut new_values: Vec<i64> = Vec::new();
        let mut j: usize = 0;
        while j < n
            invariant
                n == signal.samples().len(),
                i < n,
                j <= n,
                i >= 1 ==> diff == signal.samples()[i as int] - signal.samples()[i - 1],
                new_values@.len() == j,
                forall|t: int|
                    0 <= t < j ==> new_values@[t] == step_component(signal.samples(), i as int)[t],
            decreases n - j,
        {
            if i >= 1 && j >= i {
                new_values.push(diff);
            } else {
                new_values.push(0);
            }
            j = j + 1;
        }
        assert(new_values@ =~= step_component(signal.samples(), i as int));
        output.push(S::new(new_values));
        i = i + 1;
    }
    Ok(output)
}

/// Half of `v`, rounded toward zero.
pub open spec fn half_toward_zero(v: int) -> int {
    if v >= 0 {
        v / 2
    } else {
        -((-v) / 2)
    }
}

/// The even part of `s`, with `s` taken as one period: `s[0]` at position 0,
/// `(s[i] + s[n-i]) / 2` (rounded toward zero) at each other position `i`.
pub open spec fn even_part(s: Seq<i64>) -> Seq<i64> {
    Seq::new(
        s.len(),
        |i: int|
            if i == 0 {
                s[0]
            } else {
                half_toward_zero(s[i] + s[s.len() - i]) as i64
            },
    )
}

/// The odd part of `s`, with `s` taken as one period: zero at position 0,
/// `(s[i] - s[n-i]) / 2` (rounded toward zero) at each other position `i`.
pub open spec fn odd_part(s: Seq<i64>) -> Seq<i64> {
    Seq::new(
        s.len(),
        |i: int|
            if i == 0 {
                0i64
            } else {
                half_toward_zero(s[i] - s[s.len() - i]) as i64
            },
    )
}

/// Half of an `i128`, rounded toward zero.
fn halve(v: i128) -> (r: i128)
    requires
        -0x1_0000_0000_0000_0000 <= v <= 0x1_0000_0000_0000_0000,
    ensures
        r == half_toward_zero(v as int),
{
    if v >= 0 {
        v / 2
    } else {
        -((-v) / 2)
    }
}

/// Splits a signal of `n` samples, taken as one period, into its even and odd
/// parts, `[even, odd]`, each of `n` samples. An empty signal is refused.
pub fn even_odd_decomposition<S: Signal>(signal: S) -> (r: Result<Vec<S>, SignalError>)
    ensures
        signal.samples().len() == 0 <==> r is Err,
        r is Err ==> r == Err::<Vec<S>, SignalError>(SignalError::EmptySignal),
        r is Ok ==> r->Ok_0@.len() == 2,
        r is Ok ==> r->Ok_0@[0].samples() == even_part(signal.samples()),
        r is Ok ==> r->Ok_0@[1].samples() == odd_part(signal.samples()),
{
    let n = signal.len();
    if n == 0 {
        return Err(SignalError::EmptySignal);
    }
    let ghost s = signal.samples();
    let mut even: Vec<i64> = Vec::new();
    let mut odd: Vec<i64> = Vec::new();
    even.push(signal.at(0));
    odd.push(0);
    let mut i: usize = 1;
    while i < n
        invariant
            s == signal.samples(),
            n == s.len(),
            1 <= i <= n,
            even@.len() == i,
            odd@.len() == i,
            forall|t: int| 0 <= t < i ==> even@[t] == even_part(s)[t],
            forall|t: int| 0 <= t < i ==> odd@[t] == odd_part(s)[t],
        decreases n - i,
    {
        let front_index = i % n;
        let back_index = (n - i) % n;
        assert(front_index == i && back_index == n - i) by {
            vstd::arithmetic::div_mod::lemma_small_mod(i as nat, n as nat);
            vstd::arithmetic::div_mod::lemma_small_mod((n - i) as nat, n as nat);
        }
        let front = signal.at(front_index);
        let back = signal.at(back_index);
        let e = halve(front as i128 + back as i128);
        let o = halve(front as i128 - back as i128);
        assert(i64::MIN <= half_toward_zero(front + back) <= i64::MAX);
        assert(i64::MIN <= half_toward_zero(front - back) <= i64::MAX);
        even.push(e as i64);
        odd.push(o as i64);
        i = i + 1;
    }
    assert(even@ =~= even_part(s));
    assert(odd@ =~= odd_part(s));
    let mut output: Vec<S> = Vec::new();
    output.push(S::new(even));
    output.push(S::new(odd));
    Ok(output)
}

/// Summing the first `k` impulse components of `s` gives `s` on `0..k` and zero
/// elsewhere.
proof fn lemma_impulse_prefix(s: Seq<i64>, k: int, j: int)
    requires
        0 <= k <= s.len(),
    ensures
        column_sum(impulse_parts(s).take(k), j) == if 0 <= j < k {
            s[j] as int
        } else {
            0
        },
    decreases k,
{
    let parts = impulse_parts(s).take(k);
    if k > 0 {
        assert(parts.drop_last() =~= impulse_parts(s).take(k - 1));
        lemma_impulse_prefix(s, k - 1, j);
    }
}

/// Impulse reconstruction: the sample-wise sum of all impulse components of a
/// signal is the signal itself, at every position (zero outside its bounds).
pub proof fn lemma_impulse_reconstruction(s: Seq<i64>)
    ensures
        forall|j: int| #[trigger] column_sum(impulse_parts(s), j) == sample_at(s, j),
{
    assert forall|j: int| #[trigger] column_sum(impulse_parts(s), j) == sample_at(s, j) by {
        assert(impulse_parts(s).take(s.len() as int) =~= impulse_parts(s));
        lemma_impulse_prefix(s, s.len() as int, j);
    }
}

/// Summing the first `k` step components of `s` gives, at position `j < k`,
/// the rise `s[j] - s[0]`; at `k <= j < n` the rise `s[k-1] - s[0]`.
proof fn lemma_step_prefix(s: Seq<i64>, k: int, j: int)
    requires
        step_fits(s),
        1 <= k <= s.len(),
        0 <= j < s.len(),
    ensures
        column_sum(step_parts(s).take(k), j) == if j < k {
            s[j] - s[0]
        } else {
            s[k - 1] - s[0]
        },
    decreases k,
{
    let parts = step_parts(s).take(k);
    assert(parts.drop_last() =~= step_parts(s).take(k - 1));
    assert(parts.last() == step_component(s, k - 1));
    if k == 1 {
        assert(parts.drop_last() =~= Seq::<Seq<i64>>::empty());
        assert(column_sum(parts.drop_last(), j) == 0);
        assert(sample_at(step_component(s, 0), j) == 0);
    } else {
        let c = k - 1;
        lemma_step_prefix(s, c, j);
        assert(i64::MIN <= s[c] - s[c - 1] <= i64::MAX);
        assert(sample_at(step_component(s, c), j) == if c <= j {
            s[c] - s[c - 1]
        } else {
            0
        });
    }
}

/// Step reconstruction: summing all step components of a non-empty signal gives,
/// at each position `j`, `s[j] - s[0]`. The first component is all zero, so the
/// initial level `s[0]` is not part of the sum.
pub proof fn lemma_step_reconstruction(s: Seq<i64>)
    requires
        s.len() >= 1,
        step_fits(s),
    ensures
        forall|j: int|
            0 <= j < s.len() ==> #[trigger] column_sum(step_parts(s), j) == s[j] - s[0],
{
    assert forall|j: int| 0 <= j < s.len() implies #[trigger] column_sum(step_parts(s), j) == s[j]
        - s[0] by {
        assert(step_parts(s).take(s.len() as int) =~= step_parts(s));
        lemma_step_prefix(s, s.len() as int, j);
    }
}

/// Even/odd symmetry: under the reflection `i -> n - i`, the even part keeps its
/// values and the odd part changes their sign.
pub proof fn lemma_even_odd_symmetry(s: Seq<i64>)
    ensures
        forall|i: int|
            1 <= i < s.len() ==> #[trigger] even_part(s)[i] == even_part(s)[s.len() - i],
        forall|i: int|
            1 <= i < s.len() ==> #[trigger] odd_part(s)[i] == -odd_part(s)[s.len() - i],
{
    assert forall|i: int| 1 <= i < s.len() implies #[trigger] odd_part(s)[i] == -odd_part(s)[s.len()
        - i] by {
        let v = s[i] - s[s.len() - i];
        assert(half_toward_zero(-v) == -half_toward_zero(v));
    }
}

/// Even/odd reconstruction: `even[i] + odd[i] == s[i]` wherever the halving is
/// exact, that is at position 0 and wherever `s[i] + s[n-i]` is even.
pub proof fn lemma_even_odd_reconstruction(s: Seq<i64>)
    ensures
        forall|i: int|
            0 <= i < s.len() && (i == 0 || (s[i] + s[s.len() - i]) % 2 == 0) ==> even_part(s)[i]
                + odd_part(s)[i] == #[trigger] s[i],
{
    assert forall|i: int|
        0 <= i < s.len() && (i == 0 || (s[i] + s[s.len() - i]) % 2 == 0) implies even_part(s)[i]
        + odd_part(s)[i] == #[trigger] s[i] by {
        if i != 0 {
            let a = s[i] as int;
            let b = s[s.len() - i] as int;
            assert((a - b) % 2 == 0);
            assert(half_toward_zero(a + b) + half_toward_zero(a - b) == a);
        }
    }
}

} // verus!
