//! Energy-distance statistics over integer samples.
//!
//! `pairwise_distance_sumavg` is the mean absolute difference over all ordered
//! pairs drawn from two samples; `energy_distance` combines three of those
//! means into a divergence; `energy_t_statistic` is the size-weighted,
//! normalized form used to rank candidate split positions. All results are
//! exact rationals.

use vstd::prelude::*;

use crate::rational::{Ratio, RATIO_BOUND};

verus! {

/// Largest total number of samples a statistic accepts. Together with
/// [`MAX_ABS_SAMPLE`] this keeps every numerator and denominator of the
/// statistics below 2^63, so rational comparisons fit in `i128`.
pub const MAX_SAMPLES: usize = 2048;

/// Largest magnitude of a single sample: 2^20.
pub const MAX_ABS_SAMPLE: i64 = 0x10_0000;

/// Every sample within `[-MAX_ABS_SAMPLE, MAX_ABS_SAMPLE]`.
pub open spec fn samples_bounded(s: Seq<i64>) -> bool {
    forall|k: int| 0 <= k < s.len() ==> -MAX_ABS_SAMPLE <= #[trigger] s[k] <= MAX_ABS_SAMPLE
}

/// `|a - b|` over the mathematical integers.
pub open spec fn abs_diff(a: int, b: int) -> int {
    if a >= b {
        a - b
    } else {
        b - a
    }
}

/// Sum of `|a - y[j]|` over all positions `j`.
pub open spec fn row_abs_sum(a: int, y: Seq<i64>) -> int
    decreases y.len(),
{
    if y.len() == 0 {
        0
    } else {
        row_abs_sum(a, y.drop_last()) + abs_diff(a, y.last() as int)
    }
}

/// Sum of `|x[i] - y[j]|` over all ordered pairs `(i, j)`.
pub open spec fn pairwise_abs_sum(x: Seq<i64>, y: Seq<i64>) -> int
    decreases x.len(),
{
    if x.len() == 0 {
        0
    } else {
        pairwise_abs_sum(x.drop_last(), y) + row_abs_sum(x.last() as int, y)
    }
}

/// Sum of the samples.
pub open spec fn sample_sum(s: Seq<i64>) -> int
    decreases s.len(),
{
    if s.len() == 0 {
        0
    } else {
        sample_sum(s.drop_last()) + s.last() as int
    }
}

/// Numerator of the unnormalized energy distance over the common denominator
/// `n^2 * m^2`: the distance itself is
/// `2*sxy/(n*m) - sxx/n^2 - syy/m^2`.
pub open spec fn energy_num(x: Seq<i64>, y: Seq<i64>) -> int {
    2 * pairwise_abs_sum(x, y) * x.len() * y.len() - pairwise_abs_sum(x, x) * y.len() * y.len()
        - pairwise_abs_sum(y, y) * x.len() * x.len()
}

/// The split statistic: the normalized energy distance weighted by
/// `n*m/(n+m)`. When the two samples coincide pointwise both the distance and
/// its normalizer vanish, and the statistic is defined as zero.
pub open spec fn spec_t_stat(x: Seq<i64>, y: Seq<i64>) -> Ratio {
    if pairwise_abs_sum(x, y) == 0 {
        Ratio { num: 0, den: 1 }
    } else {
        Ratio {
            num: energy_num(x, y) as i128,
            den: (2 * pairwise_abs_sum(x, y) * (x.len() + y.len())) as i128,
        }
    }
}

/// Inputs acceptable to the pairwise statistics: two non-empty bounded
/// samples whose pooled size stays within [`MAX_SAMPLES`].
pub open spec fn stat_inputs_ok(x: Seq<i64>, y: Seq<i64>) -> bool {
    &&& x.len() >= 1
    &&& y.len() >= 1
    &&& x.len() + y.len() <= MAX_SAMPLES
    &&& samples_bounded(x)
    &&& samples_bounded(y)
}

/// A slice of a bounded sample is bounded.
pub proof fn lemma_bounded_subrange(s: Seq<i64>, i: int, j: int)
    requires
        samples_bounded(s),
        0 <= i <= j <= s.len(),
    ensures
        samples_bounded(s.subrange(i, j)),
{
    assert forall|k: int| 0 <= k < s.subrange(i, j).len() implies -MAX_ABS_SAMPLE
        <= #[trigger] s.subrange(i, j)[k] <= MAX_ABS_SAMPLE by {
        assert(s.subrange(i, j)[k] == s[i + k]);
    }
}

proof fn lemma_bounded_drop_last(s: Seq<i64>)
    requires
        samples_bounded(s),
        s.len() > 0,
    ensures
        samples_bounded(s.drop_last()),
{
    assert forall|k: int| 0 <= k < s.drop_last().len() implies -MAX_ABS_SAMPLE
        <= #[trigger] s.drop_last()[k] <= MAX_ABS_SAMPLE by {
        assert(s.drop_last()[k] == s[k]);
    }
}

proof fn lemma_row_abs_sum_bounds(a: int, y: Seq<i64>)
    requires
        -MAX_ABS_SAMPLE <= a <= MAX_ABS_SAMPLE,
        samples_bounded(y),
    ensures
        0 <= row_abs_sum(a, y) <= y.len() * (2 * MAX_ABS_SAMPLE),
    decreases y.len(),
{
    if y.len() > 0 {
        lemma_bounded_drop_last(y);
        lemma_row_abs_sum_bounds(a, y.drop_last());
        assert(-MAX_ABS_SAMPLE <= y.last() <= MAX_ABS_SAMPLE);
        assert((y.len() - 1) * (2 * MAX_ABS_SAMPLE) + 2 * MAX_ABS_SAMPLE == y.len() * (2
            * MAX_ABS_SAMPLE)) by (nonlinear_arith);
    }
}

proof fn lemma_pairwise_abs_sum_bounds(x: Seq<i64>, y: Seq<i64>)
    requires
        samples_bounded(x),
        samples_bounded(y),
    ensures
        0 <= pairwise_abs_sum(x, y) <= x.len() * y.len() * (2 * MAX_ABS_SAMPLE),
    decreases x.len(),
{
    if x.len() > 0 {
        lemma_bounded_drop_last(x);
        lemma_pairwise_abs_sum_bounds(x.drop_last(), y);
        lemma_row_abs_sum_bounds(x.last() as int, y);
        assert((x.len() - 1) * y.len() * (2 * MAX_ABS_SAMPLE) + y.len() * (2 * MAX_ABS_SAMPLE)
            == x.len() * y.len() * (2 * MAX_ABS_SAMPLE)) by (nonlinear_arith);
    }
}

proof fn lemma_sample_sum_bounds(s: Seq<i64>)
    requires
        samples_bounded(s),
    ensures
        -(s.len() * MAX_ABS_SAMPLE) <= sample_sum(s) <= s.len() * MAX_ABS_SAMPLE,
    decreases s.len(),
{
    if s.len() > 0 {
        lemma_bounded_drop_last(s);
        lemma_sample_sum_bounds(s.drop_last());
        assert((s.len() - 1) * MAX_ABS_SAMPLE + MAX_ABS_SAMPLE == s.len() * MAX_ABS_SAMPLE)
            by (nonlinear_arith);
    }
}

/// Bounds on every product appearing in the energy statistics, stated over
/// the integer quantities so that the executable arithmetic can use them
/// directly. The pooled size keeps `n*m` at or below 2^20, hence every
/// numerator strictly within 2^63 and every denominator positive and strictly
/// within 2^63.
proof fn lemma_energy_bounds(x: Seq<i64>, y: Seq<i64>)
    requires
        stat_inputs_ok(x, y),
    ensures
        1 <= x.len() * y.len() <= 0x10_0000,
        0 <= pairwise_abs_sum(x, y) <= 0x200_0000_0000,
        0 <= pairwise_abs_sum(x, x) <= 0x8_0000_0000_0000,
        0 <= pairwise_abs_sum(y, y) <= 0x8_0000_0000_0000,
        0 <= 2 * pairwise_abs_sum(x, y) * x.len() <= 0x20_0000_0000_0000,
        0 <= 2 * pairwise_abs_sum(x, y) * x.len() * y.len() <= 0x4000_0000_0000_0000,
        0 <= pairwise_abs_sum(x, x) * y.len() <= 0x2000_0000_0000_0000,
        0 <= pairwise_abs_sum(x, x) * y.len() * y.len() <= 0x2000_0000_0000_0000,
        0 <= pairwise_abs_sum(y, y) * x.len() <= 0x2000_0000_0000_0000,
        0 <= pairwise_abs_sum(y, y) * x.len() * x.len() <= 0x2000_0000_0000_0000,
        -RATIO_BOUND < energy_num(x, y) < RATIO_BOUND,
        0 <= 2 * pairwise_abs_sum(x, y) * (x.len() + y.len()) <= 0x4000_0000_0000_0000,
        pairwise_abs_sum(x, y) != 0 ==> 1 <= 2 * pairwise_abs_sum(x, y) * (x.len() + y.len()),
        pairwise_abs_sum(x, y) != 0 ==> 1 <= 2 * pairwise_abs_sum(x, y) * x.len() * y.len(),
        1 <= x.len() * x.len() <= 0x40_0000,
        1 <= x.len() * x.len() * y.len() <= 0x4000_0000_0000,
        1 <= x.len() * x.len() * y.len() * y.len() <= 0x1_0000_0000_0000,
{
    let n = x.len() as int;
    let m = y.len() as int;
    let sxy = pairwise_abs_sum(x, y);
    let sxx = pairwise_abs_sum(x, x);
    let syy = pairwise_abs_sum(y, y);
    lemma_pairwise_abs_sum_bounds(x, y);
    lemma_pairwise_abs_sum_bounds(x, x);
    lemma_pairwise_abs_sum_bounds(y, y);
    assert(MAX_ABS_SAMPLE == 0x10_0000);
    assert(1 <= n * m <= 0x10_0000) by (nonlinear_arith)
        requires
            1 <= n,
            1 <= m,
            n + m <= 2048,
    ;
    assert(0 <= sxy <= 0x200_0000_0000) by (nonlinear_arith)
        requires
            0 <= sxy <= n * m * 0x20_0000,
            1 <= n * m <= 0x10_0000,
    ;
    assert(0 <= sxx <= 0x8_0000_0000_0000 && 0 <= syy <= 0x8_0000_0000_0000) by (nonlinear_arith)
        requires
            0 <= sxx <= n * n * 0x20_0000,
            0 <= syy <= m * m * 0x20_0000,
            1 <= n <= 2047,
            1 <= m <= 2047,
    ;
    assert(0 <= 2 * sxy * n <= 0x20_0000_0000_0000) by (nonlinear_arith)
        requires
            0 <= sxy <= 0x200_0000_0000,
            1 <= n <= 2047,
    ;
    assert(0 <= 2 * sxy * n * m <= 0x4000_0000_0000_0000) by (nonlinear_arith)
        requires
            0 <= sxy <= n * m * 0x20_0000,
            1 <= n * m <= 0x10_0000,
    ;
    assert(0 <= sxx * m <= 0x2000_0000_0000_0000 && 0 <= sxx * m * m <= 0x2000_0000_0000_0000)
        by (nonlinear_arith)
        requires
            0 <= sxx <= n * n * 0x20_0000,
            1 <= n,
            1 <= m,
            1 <= n * m <= 0x10_0000,
    ;
    assert(0 <= syy * n <= 0x2000_0000_0000_0000 && 0 <= syy * n * n <= 0x2000_0000_0000_0000)
        by (nonlinear_arith)
        requires
            0 <= syy <= m * m * 0x20_0000,
            1 <= n,
            1 <= m,
            1 <= n * m <= 0x10_0000,
    ;
    assert(energy_num(x, y) == 2 * sxy * n * m - sxx * m * m - syy * n * n);
    assert(RATIO_BOUND == 0x8000_0000_0000_0000);
    assert(0 <= 2 * sxy * (n + m) <= 0x4000_0000_0000_0000) by (nonlinear_arith)
        requires
            0 <= sxy <= 0x200_0000_0000,
            2 <= n + m <= 2048,
    ;
    assert(sxy != 0 ==> 1 <= 2 * sxy * (n + m)) by (nonlinear_arith)
        requires
            0 <= sxy,
            2 <= n + m,
    ;
    assert(sxy != 0 ==> 1 <= 2 * sxy * n * m) by (nonlinear_arith)
        requires
            0 <= sxy,
            1 <= n * m,
    ;
    assert(1 <= n * n <= 0x40_0000 && 1 <= n * n * m <= 0x4000_0000_0000) by (nonlinear_arith)
        requires
            1 <= n <= 2047,
            1 <= m <= 2047,
            1 <= n * m <= 0x10_0000,
    ;
    assert(1 <= n * n * m * m <= 0x1_0000_0000_0000) by (nonlinear_arith)
        requires
            1 <= n,
            1 <= m,
            1 <= n * m <= 0x10_0000,
    ;
}

/// `|a - b|` for bounded samples.
fn abs_diff_exec(a: i64, b: i64) -> (r: i64)
    requires
        -MAX_ABS_SAMPLE <= a <= MAX_ABS_SAMPLE,
        -MAX_ABS_SAMPLE <= b <= MAX_ABS_SAMPLE,
    ensures
        r == abs_diff(a as int, b as int),
        0 <= r <= 2 * MAX_ABS_SAMPLE,
{
    if a >= b {
        a - b
    } else {
        b - a
    }
}

/// Sum of `|x[i] - y[j]|` over all ordered pairs.
fn sum_abs_pairs(x: &Vec<i64>, y: &Vec<i64>) -> (s: i64)
    requires
        x@.len() <= MAX_SAMPLES,
        y@.len() <= MAX_SAMPLES,
        samples_bounded(x@),
        samples_bounded(y@),
    ensures
        s == pairwise_abs_sum(x@, y@),
        0 <= s,
{
    let mut acc: i64 = 0;
    let mut i: usize = 0;
    while i < x.len()
        invariant
            i <= x@.len(),
            x@.len() <= MAX_SAMPLES,
            y@.len() <= MAX_SAMPLES,
            samples_bounded(x@),
            samples_bounded(y@),
            acc == pairwise_abs_sum(x@.subrange(0, i as int), y@),
            0 <= acc <= (i * y@.len()) * (2 * MAX_ABS_SAMPLE),
        decreases x@.len() - i,
    {
        let mut j: usize = 0;
        while j < y.len()
            invariant
                i < x@.len(),
                j <= y@.len(),
                x@.len() <= MAX_SAMPLES,
                y@.len() <= MAX_SAMPLES,
                samples_bounded(x@),
                samples_bounded(y@),
                acc == pairwise_abs_sum(x@.subrange(0, i as int), y@) + row_abs_sum(
                    x@[i as int] as int,
                    y@.subrange(0, j as int),
                ),
                0 <= acc <= (i * y@.len() + j) * (2 * MAX_ABS_SAMPLE),
            decreases y@.len() - j,
        {
            proof {
                assert(-MAX_ABS_SAMPLE <= x@[i as int] <= MAX_ABS_SAMPLE);
                assert(-MAX_ABS_SAMPLE <= y@[j as int] <= MAX_ABS_SAMPLE);
                assert(y@.subrange(0, j as int + 1).drop_last() =~= y@.subrange(0, j as int));
                assert(y@.subrange(0, j as int + 1).last() == y@[j as int]);
                assert((i * y@.len() + j) * (2 * 0x10_0000) + 2 * 0x10_0000 == (i * y@.len() + j
                    + 1) * (2 * 0x10_0000)) by (nonlinear_arith);
                assert((i * y@.len() + j + 1) * (2 * 0x10_0000) <= 0x2_0000_0000_0000)
                    by (nonlinear_arith)
                    requires
                        0 <= i < 2048,
                        0 <= j < 2048,
                        y@.len() <= 2048,
                ;
                assert(MAX_ABS_SAMPLE == 0x10_0000);
            }
            acc = acc + abs_diff_exec(x[i], y[j]);
            j = j + 1;
        }
        proof {
            assert(y@.subrange(0, y@.len() as int) =~= y@);
            assert(x@.subrange(0, i as int + 1).drop_last() =~= x@.subrange(0, i as int));
            assert(x@.subrange(0, i as int + 1).last() == x@[i as int]);
            assert((i * y@.len() + y@.len()) * (2 * MAX_ABS_SAMPLE) == ((i + 1) * y@.len()) * (2
                * MAX_ABS_SAMPLE)) by (nonlinear_arith);
        }
        i = i + 1;
    }
    proof {
        assert(x@.subrange(0, x@.len() as int) =~= x@);
    }
    acc
}

/// Mean of `|x[i] - y[j]|` over all `n*m` ordered pairs, as an exact rational.
pub fn pairwise_distance_sumavg(x: &Vec<i64>, y: &Vec<i64>) -> (r: Ratio)
    requires
        x@.len() >= 1,
        y@.len() >= 1,
        x@.len() <= MAX_SAMPLES,
        y@.len() <= MAX_SAMPLES,
        samples_bounded(x@),
        samples_bounded(y@),
    ensures
        r.wf(),
        r.num == pairwise_abs_sum(x@, y@),
        r.den == x@.len() * y@.len(),
{
    let s = sum_abs_pairs(x, y);
    proof {
        lemma_pairwise_abs_sum_bounds(x@, y@);
        assert(0 <= pairwise_abs_sum(x@, y@) <= 0x2_0000_0000_0000 && 1 <= x@.len() * y@.len()
            <= 0x40_0000) by (nonlinear_arith)
            requires
                0 <= pairwise_abs_sum(x@, y@) <= x@.len() * y@.len() * (2 * 0x10_0000),
                1 <= x@.len() <= 2048,
                1 <= y@.len() <= 2048,
        ;
        assert(MAX_ABS_SAMPLE == 0x10_0000);
        assert(RATIO_BOUND == 0x8000_0000_0000_0000);
    }
    Ratio { num: s as i128, den: (x.len() as i128) * (y.len() as i128) }
}

/// The energy distance between two samples:
/// `2*avg(x,y) - avg(x,x) - avg(y,y)` where `avg` is the pairwise mean
/// absolute difference. With `normalized`, the distance is divided by
/// `2*avg(x,y)`; when the two samples coincide pointwise that normalizer
/// vanishes together with the distance, and the result is defined as zero.
pub fn energy_distance(x: &Vec<i64>, y: &Vec<i64>, normalized: bool) -> (r: Ratio)
    requires
        stat_inputs_ok(x@, y@),
    ensures
        r.wf(),
        !normalized ==> r.num == energy_num(x@, y@) && r.den == x@.len() * x@.len() * y@.len()
            * y@.len(),
        normalized && pairwise_abs_sum(x@, y@) == 0 ==> r.num == 0 && r.den == 1,
        normalized && pairwise_abs_sum(x@, y@) != 0 ==> r.num == energy_num(x@, y@) && r.den == 2
            * pairwise_abs_sum(x@, y@) * x@.len() * y@.len(),
{
    proof {
        lemma_energy_bounds(x@, y@);
    }
    let n = x.len() as i128;
    let m = y.len() as i128;
    let sxy = sum_abs_pairs(x, y) as i128;
    let sxx = sum_abs_pairs(x, x) as i128;
    let syy = sum_abs_pairs(y, y) as i128;
    let num = 2 * sxy * n * m - sxx * m * m - syy * n * n;
    if normalized {
        if sxy == 0 {
            Ratio::zero()
        } else {
            Ratio { num, den: 2 * sxy * n * m }
        }
    } else {
        Ratio { num, den: n * n * m * m }
    }
}

/// The statistic that ranks a candidate split: the normalized energy distance
/// between the two sides, weighted by `n*m/(n+m)` so that splits of different
/// proportions are comparable.
pub fn energy_t_statistic(x: &Vec<i64>, y: &Vec<i64>) -> (r: Ratio)
    requires
        stat_inputs_ok(x@, y@),
    ensures
        r.wf(),
        r == spec_t_stat(x@, y@),
{
    proof {
        lemma_energy_bounds(x@, y@);
    }
    let n = x.len() as i128;
    let m = y.len() as i128;
    let sxy = sum_abs_pairs(x, y) as i128;
    let sxx = sum_abs_pairs(x, x) as i128;
    let syy = sum_abs_pairs(y, y) as i128;
    if sxy == 0 {
        Ratio::zero()
    } else {
        let num = 2 * sxy * n * m - sxx * m * m - syy * n * n;
        Ratio { num, den: 2 * sxy * (n + m) }
    }
}

/// The split statistic is the normalized energy distance weighted by
/// `n*m/(n+m)`: cross-multiplied, the statistic times the distance's
/// denominator and `n+m` equals the distance's numerator times `n*m` times
/// the statistic's denominator. The denominators here are the ones
/// [`energy_distance`] returns in its normalized form when the distance is
/// not degenerate; when every sample of `x` equals every sample of `y`, both
/// the statistic and the distance are zero.
pub proof fn lemma_t_statistic_weighs_energy_distance(x: Seq<i64>, y: Seq<i64>)
    requires
        stat_inputs_ok(x, y),
    ensures
        pairwise_abs_sum(x, y) == 0 ==> spec_t_stat(x, y).num == 0,
        pairwise_abs_sum(x, y) != 0 ==> (spec_t_stat(x, y).num as int) * (2 * pairwise_abs_sum(
            x,
            y,
        ) * x.len() * y.len()) * (x.len() + y.len()) == energy_num(x, y) * (x.len() * y.len()) * (
        spec_t_stat(x, y).den as int),
{
    lemma_energy_bounds(x, y);
    if pairwise_abs_sum(x, y) != 0 {
        let s = pairwise_abs_sum(x, y);
        let n = x.len() as int;
        let m = y.len() as int;
        let e = energy_num(x, y);
        assert(spec_t_stat(x, y).num == e);
        assert(spec_t_stat(x, y).den == 2 * s * (n + m));
        assert(e * (2 * s * n * m) * (n + m) == e * (n * m) * (2 * s * (n + m)))
            by (nonlinear_arith);
    }
}

/// Mean of a non-empty sample, as an exact rational.
pub fn mean(series: &Vec<i64>) -> (r: Ratio)
    requires
        1 <= series@.len() <= MAX_SAMPLES,
        samples_bounded(series@),
    ensures
        r.wf(),
        r.num == sample_sum(series@),
        r.den == series@.len(),
{
    let mut acc: i64 = 0;
    let mut i: usize = 0;
    while i < series.len()
        invariant
            i <= series@.len(),
            series@.len() <= MAX_SAMPLES,
            samples_bounded(series@),
            acc == sample_sum(series@.subrange(0, i as int)),
            -(i * MAX_ABS_SAMPLE) <= acc <= i * MAX_ABS_SAMPLE,
        decreases series@.len() - i,
    {
        proof {
            assert(-MAX_ABS_SAMPLE <= series@[i as int] <= MAX_ABS_SAMPLE);
            assert(series@.subrange(0, i as int + 1).drop_last() =~= series@.subrange(0, i as int));
            assert(series@.subrange(0, i as int + 1).last() == series@[i as int]);
            assert((i + 1) * MAX_ABS_SAMPLE == i * MAX_ABS_SAMPLE + MAX_ABS_SAMPLE)
                by (nonlinear_arith);
            assert((i + 1) * 0x10_0000 <= 0x8000_0000) by (nonlinear_arith)
                requires
                    0 <= i < 2048,
            ;
            assert(MAX_ABS_SAMPLE == 0x10_0000);
        }
        acc = acc + series[i];
        i = i + 1;
    }
    proof {
        assert(series@.subrange(0, series@.len() as int) =~= series@);
        assert(i * MAX_ABS_SAMPLE <= 2048 * 0x10_0000) by (nonlinear_arith)
            requires
                0 <= i <= 2048,
        ;
        assert(MAX_ABS_SAMPLE == 0x10_0000);
        assert(RATIO_BOUND == 0x8000_0000_0000_0000);
    }
    Ratio { num: acc as i128, den: series.len() as i128 }
}

/// `mean(a) - mean(b)` as an exact rational: the location statistic used by
/// the permutation test in its stand-alone form.
pub fn mean_difference(a: &Vec<i64>, b: &Vec<i64>) -> (r: Ratio)
    requires
        1 <= a@.len() <= MAX_SAMPLES,
        1 <= b@.len() <= MAX_SAMPLES,
        samples_bounded(a@),
        samples_bounded(b@),
    ensures
        r.wf(),
        r.num == sample_sum(a@) * b@.len() - sample_sum(b@) * a@.len(),
        r.den == a@.len() * b@.len(),
{
    let ma = mean(a);
    let mb = mean(b);
    proof {
        lemma_sample_sum_bounds(a@);
        lemma_sample_sum_bounds(b@);
        assert(-0x8000_0000 <= sample_sum(a@) <= 0x8000_0000 && -0x8000_0000 <= sample_sum(b@)
            <= 0x8000_0000) by (nonlinear_arith)
            requires
                -(a@.len() * 0x10_0000) <= sample_sum(a@) <= a@.len() * 0x10_0000,
                -(b@.len() * 0x10_0000) <= sample_sum(b@) <= b@.len() * 0x10_0000,
                1 <= a@.len() <= 2048,
                1 <= b@.len() <= 2048,
        ;
        assert(MAX_ABS_SAMPLE == 0x10_0000);
        assert(-0x4_0000_0000_0000 <= sample_sum(a@) * b@.len() <= 0x4_0000_0000_0000
            && -0x4_0000_0000_0000 <= sample_sum(b@) * a@.len() <= 0x4_0000_0000_0000 && 1
            <= a@.len() * b@.len() <= 0x40_0000) by (nonlinear_arith)
            requires
                -0x8000_0000 <= sample_sum(a@) <= 0x8000_0000,
                -0x8000_0000 <= sample_sum(b@) <= 0x8000_0000,
                1 <= a@.len() <= 2048,
                1 <= b@.len() <= 2048,
        ;
        assert(RATIO_BOUND == 0x8000_0000_0000_0000);
    }
    Ratio { num: ma.num * mb.den - mb.num * ma.den, den: ma.den * mb.den }
}

} // verus!
