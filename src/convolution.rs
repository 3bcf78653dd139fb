use vstd::prelude::*;

use crate::signal::sample_at;

verus! {

/// The first `j` terms of the convolution sum at output position `i`:
/// `h[0]*x[i] + h[1]*x[i-1] + ... + h[j-1]*x[i-(j-1)]`, reading `x` zero-padded.
pub open spec fn conv_partial(x: Seq<i64>, h: Seq<i64>, i: int, j: int) -> int
    decreases j,
{
    if j <= 0 {
        0
    } else {
        conv_partial(x, h, i, j - 1) + h[j - 1] * sample_at(x, i - (j - 1))
    }
}

/// The convolution of signal `x` with kernel `h` at output position `i`.
pub open spec fn conv_at(x: Seq<i64>, h: Seq<i64>, i: int) -> int {
    conv_partial(x, h, i, h.len() as int)
}

/// The length of the convolution of a signal of `n` samples with a kernel of `m`.
pub open spec fn conv_len(n: int, m: int) -> int {
    n + m - 1
}

/// Every running sum of the convolution of `x` with `h` fits in an `i64`, so that
/// the direct summation never overflows.
pub open spec fn conv_fits(x: Seq<i64>, h: Seq<i64>) -> bool {
    forall|i: int, j: int|
        0 <= i < conv_len(x.len() as int, h.len() as int) && 0 <= j <= h.len()
            ==> i64::MIN <= #[trigger] conv_partial(x, h, i, j) <= i64::MAX
}

/// A kernel of `k + 1` samples: a single 1 at position `k`, zero before it.
pub open spec fn delayed_impulse(k: nat) -> Seq<i64> {
    Seq::new(k + 1, |j: int| if j == k { 1i64 } else { 0i64 })
}

/// The running sums for a one-sample kernel `[c]`.
proof fn lemma_single_tap_partial(x: Seq<i64>, c: i64, i: int)
    ensures
        conv_partial(x, seq![c], i, 0) == 0,
        conv_partial(x, seq![c], i, 1) == c * sample_at(x, i),
{
    assert(conv_partial(x, seq![c], i, 1) == conv_partial(x, seq![c], i, 0) + seq![c][0]
        * sample_at(x, i));
}

/// Convolution scale: convolving with the one-sample kernel `[c]` multiplies every
/// sample by `c`, and keeps the length.
pub proof fn lemma_fold_scale(x: Seq<i64>, c: i64)
    requires
        forall|i: int| 0 <= i < x.len() ==> i64::MIN <= c * #[trigger] x[i] <= i64::MAX,
    ensures
        conv_fits(x, seq![c]),
        conv_len(x.len() as int, 1) == x.len(),
        forall|i: int| 0 <= i < x.len() ==> #[trigger] conv_at(x, seq![c], i) == c * x[i],
{
    assert forall|i: int, j: int|
        0 <= i < conv_len(x.len() as int, seq![c].len() as int) && 0 <= j <= seq![c].len()
            implies i64::MIN <= #[trigger] conv_partial(x, seq![c], i, j) <= i64::MAX by {
        lemma_single_tap_partial(x, c, i);
        assert(sample_at(x, i) == x[i]);
    }
    assert forall|i: int| 0 <= i < x.len() implies #[trigger] conv_at(x, seq![c], i) == c
        * x[i] by {
        lemma_single_tap_partial(x, c, i);
    }
}

/// Convolution identity: convolving with the kernel `[1]` gives the signal back.
/// With `conv_fits` below, `fold` accepts the kernel `[1]` with every signal of
/// fewer than `usize::MAX` samples.
pub proof fn lemma_fold_identity(x: Seq<i64>)
    ensures
        conv_fits(x, seq![1i64]),
        conv_len(x.len() as int, 1) == x.len(),
        forall|i: int| 0 <= i < x.len() ==> #[trigger] conv_at(x, seq![1i64], i) == x[i],
{
    lemma_fold_scale(x, 1i64);
}

/// The running sums for the kernel `delayed_impulse(k)`: zero until the tap at
/// `k` is reached, then the sample `k` positions back.
proof fn lemma_delay_partial(x: Seq<i64>, k: nat, i: int, j: int)
    requires
        0 <= j <= k + 1,
    ensures
        conv_partial(x, delayed_impulse(k), i, j) == if j == k + 1 {
            sample_at(x, i - k)
        } else {
            0
        },
    decreases j,
{
    if j > 0 {
        lemma_delay_partial(x, k, i, j - 1);
    }
}

/// Convolution delay: convolving with a unit impulse delayed by `k` positions
/// shifts the signal right by `k`, with `k` leading zeros; the result has
/// `n + k` samples.
pub proof fn lemma_fold_delay(x: Seq<i64>, k: nat)
    ensures
        conv_fits(x, delayed_impulse(k)),
        conv_len(x.len() as int, delayed_impulse(k).len() as int) == x.len() + k,
        forall|i: int|
            0 <= i < x.len() + k ==> #[trigger] conv_at(x, delayed_impulse(k), i) == sample_at(
                x,
                i - k,
            ),
{
    assert forall|i: int, j: int|
        0 <= i < conv_len(x.len() as int, delayed_impulse(k).len() as int) && 0 <= j
            <= delayed_impulse(k).len() implies i64::MIN <= #[trigger] conv_partial(
        x,
        delayed_impulse(k),
        i,
        j,
    ) <= i64::MAX by {
        lemma_delay_partial(x, k, i, j);
    }
    assert forall|i: int| 0 <= i < x.len() + k implies #[trigger] conv_at(
        x,
        delayed_impulse(k),
        i,
    ) == sample_at(x, i - k) by {
        lemma_delay_partial(x, k, i, (k + 1) as int);
    }
}

} // verus!
