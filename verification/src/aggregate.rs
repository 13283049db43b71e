//! Sample aggregation: turns a window of raw elapsed-time samples into the
//! derived throughput metrics. Samples are whole nanoseconds as the device
//! reports them; all aggregation is integer arithmetic, so the summary is
//! exact and the only rounding is the final integer divisions.

use vstd::prelude::*;
use vstd::arithmetic::div_mod::{
    lemma_div_by_multiple, lemma_div_denominator, lemma_div_is_ordered,
    lemma_div_is_ordered_by_denominator,
};
use vstd::arithmetic::mul::{lemma_mul_inequality, lemma_mul_strictly_positive};

use crate::errors::{BenchError, ConfigFault};

verus! {

/// Sum, in nanoseconds, of a sequence of samples.
pub open spec fn sum_ns(s: Seq<u64>) -> int
    decreases s.len(),
{
    if s.len() == 0 {
        0
    } else {
        sum_ns(s.drop_last()) + s.last()
    }
}

/// The samples that survive discarding: positions `[warmup, len - warmup)`.
/// Leading samples are warm-up transients, trailing ones cool-down.
pub open spec fn included_window(s: Seq<u64>, warmup: int) -> Seq<u64> {
    s.subrange(warmup, s.len() - warmup)
}

/// Sum of the samples of `s` whose position lies in `[lo, hi)`. Unlike
/// [`included_window`] this is defined for a partial run, where `s` may end
/// before `hi`.
pub open spec fn sum_window(s: Seq<u64>, lo: int, hi: int) -> int
    decreases s.len(),
{
    if s.len() == 0 {
        0
    } else {
        sum_window(s.drop_last(), lo, hi) + if lo <= s.len() - 1 && s.len() - 1 < hi {
            s.last()
        } else {
            0
        }
    }
}

/// How many positions of a run prefix of length `len` lie in `[lo, hi)`.
pub open spec fn window_count(len: int, lo: int, hi: int) -> int
    recommends
        0 <= lo <= hi,
{
    if len <= lo {
        0
    } else if len <= hi {
        len - lo
    } else {
        hi - lo
    }
}

/// Nanoseconds one full-screen draw took, averaged over every included draw:
/// `total / (included_samples * draws_per_sample)`.
pub open spec fn full_screen_time_of(total_ns: int, included: int, draws: int) -> int {
    total_ns / (included * draws)
}

/// Nanoseconds per megapixel: `full_screen_ns * 1_000_000 / pixel_count`.
pub open spec fn megapixel_time_of(full_screen_ns: int, pixel_count: int) -> int {
    full_screen_ns * 1_000_000 / pixel_count
}

/// The derived report of one run: computed once, handed to the reporting
/// sink, and discarded.
#[derive(Clone, Copy, Debug, PartialEq, Eq, Structural)]
pub struct RunResult {
    /// Sum of the included samples, in nanoseconds.
    pub total_time_ns: u128,
    /// How many samples were summed (after discarding warm-up and cool-down).
    pub included_samples: usize,
    /// How many draws each sample timed.
    pub draws_per_sample: usize,
    /// Average time of one full-screen draw, in nanoseconds.
    pub full_screen_time_ns: u64,
    /// Time per megapixel shaded, in nanoseconds.
    pub megapixel_time_ns: u128,
}

impl RunResult {
    /// The per-megapixel time in whole microseconds, as reports display it.
    pub fn megapixel_time_us(&self) -> (r: u128)
        ensures
            r == self.megapixel_time_ns / 1000,
    {
        self.megapixel_time_ns / 1000
    }
}

/// The sum of a sequence of samples is non-negative and at most
/// `len * u64::MAX`.
pub proof fn lemma_sum_bounds(s: Seq<u64>)
    ensures
        0 <= sum_ns(s) <= s.len() * (u64::MAX as int),
    decreases s.len(),
{
    if s.len() == 0 {
    } else {
        lemma_sum_bounds(s.drop_last());
        assert(s.len() * (u64::MAX as int) == (s.len() - 1) * (u64::MAX as int) + u64::MAX);
    }
}

/// A windowed sum is non-negative and at most `u64::MAX` per counted
/// position.
pub proof fn lemma_sum_window_bounds(s: Seq<u64>, lo: int, hi: int)
    requires
        0 <= lo <= hi,
    ensures
        0 <= sum_window(s, lo, hi) <= window_count(s.len() as int, lo, hi) * (u64::MAX as int),
    decreases s.len(),
{
    if s.len() == 0 {
    } else {
        lemma_sum_window_bounds(s.drop_last(), lo, hi);
        let c = window_count(s.len() - 1, lo, hi);
        assert((c + 1) * (u64::MAX as int) == c * (u64::MAX as int) + u64::MAX);
    }
}

/// On the samples a run has actually produced, the windowed sum is the plain
/// sum of the window clamped to the run's length.
pub proof fn lemma_sum_window_clamped(s: Seq<u64>, lo: int, hi: int)
    requires
        0 <= lo <= hi,
    ensures
        sum_window(s, lo, hi) == sum_ns(
            s.subrange(vstd::math::min(lo, s.len() as int), vstd::math::min(hi, s.len() as int)),
        ),
    decreases s.len(),
{
    let len = s.len() as int;
    if s.len() == 0 {
    } else {
        let d = s.drop_last();
        lemma_sum_window_clamped(d, lo, hi);
        if len <= lo {
            assert(s.subrange(len, len) =~= d.subrange(len - 1, len - 1));
        } else if len - 1 < hi {
            // the last sample is counted
            assert(s.subrange(lo, len).drop_last() =~= d.subrange(
                lo,
                vstd::math::min(hi, len - 1),
            ));
            assert(s.subrange(lo, len).last() == s.last());
        } else {
            assert(s.subrange(lo, hi) =~= d.subrange(lo, hi));
        }
    }
}

/// Removing the sample at position `i` removes exactly its value from the sum.
pub proof fn lemma_sum_remove(s: Seq<u64>, i: int)
    requires
        0 <= i < s.len(),
    ensures
        sum_ns(s) == sum_ns(s.remove(i)) + s[i],
    decreases s.len(),
{
    if i == s.len() - 1 {
        assert(s.remove(i) =~= s.drop_last());
    } else {
        lemma_sum_remove(s.drop_last(), i);
        assert(s.remove(i).drop_last() =~= s.drop_last().remove(i));
        assert(s.remove(i).last() == s.last());
    }
}

/// The aggregated sum is invariant to the order in which already-collected
/// samples are summed: any two sample sequences holding the same samples
/// (as a multiset) have the same sum.
pub proof fn lemma_sum_order_insensitive(a: Seq<u64>, b: Seq<u64>)
    requires
        a.to_multiset() == b.to_multiset(),
    ensures
        sum_ns(a) == sum_ns(b),
    decreases a.len(),
{
    broadcast use vstd::seq_lib::group_to_multiset_ensures;
    broadcast use vstd::multiset::group_multiset_axioms;

    assert(a.to_multiset().len() == a.len());
    assert(b.to_multiset().len() == b.len());
    if a.len() == 0 {
        assert(b.len() == 0);
    } else {
        let x = a.last();
        assert(a[a.len() - 1] == x);
        assert(a.contains(x));
        assert(b.to_multiset().count(x) > 0);
        assert(b.contains(x));
        let j = choose|j: int| 0 <= j < b.len() && b[j] == x;
        assert(a.drop_last() =~= a.remove(a.len() - 1));
        assert(a.remove(a.len() - 1).to_multiset() == a.to_multiset().remove(x));
        assert(b.remove(j).to_multiset() == b.to_multiset().remove(x));
        lemma_sum_remove(b, j);
        lemma_sum_order_insensitive(a.drop_last(), b.remove(j));
    }
}

/// The aggregated full-screen time is invariant to the order in which
/// already-collected samples are summed: histories holding the same samples
/// derive the same per-draw time.
pub proof fn lemma_full_screen_time_order_insensitive(
    a: Seq<u64>,
    b: Seq<u64>,
    included: int,
    draws: int,
)
    requires
        a.to_multiset() == b.to_multiset(),
    ensures
        full_screen_time_of(sum_ns(a), included, draws) == full_screen_time_of(
            sum_ns(b),
            included,
            draws,
        ),
{
    lemma_sum_order_insensitive(a, b);
}

/// Scaling up the draws per sample, with the measured total held fixed,
/// scales the derived full-screen time down by the same factor; in
/// particular, doubling the draws halves it.
pub proof fn lemma_draws_scale_inverse(total_ns: int, included: int, draws: int, k: int)
    requires
        0 <= total_ns,
        0 < included,
        0 < draws,
        0 < k,
    ensures
        full_screen_time_of(total_ns, included, k * draws)
            == full_screen_time_of(total_ns, included, draws) / k,
{
    lemma_mul_strictly_positive(included, draws);
    lemma_div_denominator(total_ns, included * draws, k);
    assert((included * draws) * k == included * (k * draws)) by (nonlinear_arith);
}

/// For a fixed full-screen time, the per-megapixel time scales inversely
/// with the pixel count: scaling the pixel count up by `k` scales the
/// per-megapixel time down by `k`.
pub proof fn lemma_megapixel_scale_inverse(full_screen_ns: int, pixel_count: int, k: int)
    requires
        0 <= full_screen_ns,
        0 < pixel_count,
        0 < k,
    ensures
        megapixel_time_of(full_screen_ns, k * pixel_count)
            == megapixel_time_of(full_screen_ns, pixel_count) / k,
{
    lemma_div_denominator(full_screen_ns * 1_000_000, pixel_count, k);
    assert(pixel_count * k == k * pixel_count) by (nonlinear_arith);
}

/// Derives the report from an already-summed window: the average time of one
/// full-screen draw, and its per-megapixel normalisation. The sum must not
/// exceed `u64::MAX` per included sample — true of any sum of `included`
/// device-reported samples.
pub fn derive_result(sum: u128, included: usize, draws: usize, pixel_count: u64) -> (res:
    RunResult)
    requires
        included > 0,
        draws > 0,
        pixel_count > 0,
        sum as int <= included as int * (u64::MAX as int),
    ensures
        res.total_time_ns == sum,
        res.included_samples == included,
        res.draws_per_sample == draws,
        res.full_screen_time_ns == full_screen_time_of(sum as int, included as int, draws as int),
        res.megapixel_time_ns == megapixel_time_of(
            res.full_screen_time_ns as int,
            pixel_count as int,
        ),
{
    proof {
        assert(included as int <= u64::MAX as int);
        assert(draws as int <= u64::MAX as int);
        lemma_mul_strictly_positive(included as int, draws as int);
        assert((included as int) * (draws as int) <= (u64::MAX as int) * (u64::MAX as int)) by (
        nonlinear_arith)
            requires
                0 < included as int <= u64::MAX as int,
                0 < draws as int <= u64::MAX as int,
        ;
        assert((u64::MAX as int) * (u64::MAX as int) < u128::MAX as int);
        // The quotient fits in u64: the sum is at most included * u64::MAX,
        // and the divisor is at least included.
        lemma_mul_inequality(1, draws as int, included as int);
        assert(included as int <= (included as int) * (draws as int)) by (nonlinear_arith)
            requires
                0 < included as int,
                0 < draws as int,
        ;
        lemma_div_is_ordered_by_denominator(
            sum as int,
            included as int,
            (included as int) * (draws as int),
        );
        lemma_div_is_ordered(sum as int, (included as int) * (u64::MAX as int), included as int);
        lemma_div_by_multiple(u64::MAX as int, included as int);
        assert((included as int) * (u64::MAX as int) == (u64::MAX as int) * (included as int)) by (
        nonlinear_arith);
        assert(sum as int / ((included as int) * (draws as int)) <= u64::MAX as int);
    }
    let divisor: u128 = (included as u128) * (draws as u128);
    let fst128: u128 = sum / divisor;
    let fst: u64 = fst128 as u64;
    let mp: u128 = (fst as u128) * 1_000_000 / (pixel_count as u128);
    RunResult {
        total_time_ns: sum,
        included_samples: included,
        draws_per_sample: draws,
        full_screen_time_ns: fst,
        megapixel_time_ns: mp,
    }
}

/// Aggregates one run's samples into a [`RunResult`].
///
/// Discards `warmup` leading and `warmup` trailing samples, sums the rest,
/// and derives the per-draw and per-megapixel times. A configuration that
/// leaves nothing to sum, times no work, or normalises over zero pixels is
/// rejected before any arithmetic, never silently mis-divided.
pub fn aggregate(
    samples: &Vec<u64>,
    warmup: usize,
    draws_per_sample: usize,
    pixel_count: u64,
) -> (r: Result<RunResult, BenchError>)
    ensures
        r is Ok <==> (2 * warmup < samples@.len() && draws_per_sample > 0 && pixel_count > 0),
        !(2 * warmup < samples@.len()) ==> r == Err::<RunResult, BenchError>(
            BenchError::Config(ConfigFault::WarmupTooLarge),
        ),
        (2 * warmup < samples@.len() && draws_per_sample == 0) ==> r == Err::<
            RunResult,
            BenchError,
        >(BenchError::Config(ConfigFault::ZeroDraws)),
        (2 * warmup < samples@.len() && draws_per_sample > 0 && pixel_count == 0) ==> r == Err::<
            RunResult,
            BenchError,
        >(BenchError::Config(ConfigFault::ZeroPixels)),
        r is Ok ==> {
            let res = r->Ok_0;
            &&& res.included_samples == samples@.len() - 2 * warmup
            &&& res.draws_per_sample == draws_per_sample
            &&& res.total_time_ns == sum_ns(included_window(samples@, warmup as int))
            &&& res.full_screen_time_ns == full_screen_time_of(
                sum_ns(included_window(samples@, warmup as int)),
                samples@.len() - 2 * warmup,
                draws_per_sample as int,
            )
            &&& res.megapixel_time_ns == megapixel_time_of(
                res.full_screen_time_ns as int,
                pixel_count as int,
            )
        },
{
    let n = samples.len();
    if warmup >= n || n - warmup <= warmup {
        return Err(BenchError::Config(ConfigFault::WarmupTooLarge));
    }
    if draws_per_sample == 0 {
        return Err(BenchError::Config(ConfigFault::ZeroDraws));
    }
    if pixel_count == 0 {
        return Err(BenchError::Config(ConfigFault::ZeroPixels));
    }
    let lo = warmup;
    let hi = n - warmup;
    let included = hi - lo;

    let mut sum: u128 = 0;
    let mut i: usize = lo;
    while i < hi
        invariant
            lo <= i <= hi <= samples@.len(),
            samples@.len() == n,
            hi == n - warmup,
            lo == warmup,
            sum == sum_ns(samples@.subrange(lo as int, i as int)),
            sum <= (i - lo) * (u64::MAX as int),
        decreases hi - i,
    {
        proof {
            assert(samples@.subrange(lo as int, i + 1).drop_last() =~= samples@.subrange(
                lo as int,
                i as int,
            ));
            assert(samples@.subrange(lo as int, i + 1).last() == samples@[i as int]);
            assert((i - lo) * (u64::MAX as int) + u64::MAX == (i + 1 - lo) * (u64::MAX as int));
        }
        sum = sum + samples[i] as u128;
        i = i + 1;
    }
    proof {
        assert(samples@.subrange(lo as int, hi as int) == included_window(samples@, warmup as int));
        lemma_sum_bounds(samples@.subrange(lo as int, hi as int));
    }
    Ok(derive_result(sum, included, draws_per_sample, pixel_count))
}

} // verus!
