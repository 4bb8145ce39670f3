//! Monte-Carlo permutation test.
//!
//! The observed statistic of two samples is compared with the statistic of
//! many random relabelings of the pooled data: the pool is shuffled, split
//! back into the original sizes, and the statistic recomputed. The empirical
//! p-value is `count / (trials + 1)` where `count` is the number of trials
//! whose statistic strictly exceeds the observed one; the null hypothesis is
//! rejected when that p-value is at most the requested level.

use vstd::prelude::*;

use crate::random::rand_below;
use crate::rational::{rat_lt, Ratio};
use crate::subvec::subvector;

verus! {

/// Largest accepted number of Monte-Carlo trials: 2^30. Keeps the p-value
/// comparison within `i128`.
pub const MAX_PERMUTATIONS: usize = 0x4000_0000;

/// `x` and `y` redistribute the pooled contents of `a` and `b` while keeping
/// the two sample sizes.
pub open spec fn is_resample(x: Seq<i64>, y: Seq<i64>, a: Seq<i64>, b: Seq<i64>) -> bool {
    &&& x.len() == a.len()
    &&& y.len() == b.len()
    &&& (x + y).to_multiset() == (a + b).to_multiset()
}

/// How many trial statistics strictly exceed the observed one.
pub open spec fn exceed_count(tvals: Seq<Ratio>, t_obs: Ratio) -> int
    decreases tvals.len(),
{
    if tvals.len() == 0 {
        0
    } else {
        exceed_count(tvals.drop_last(), t_obs) + if rat_lt(t_obs, tvals.last()) {
            1int
        } else {
            0int
        }
    }
}

/// The test's decision rule: the empirical p-value `count / (permutations + 1)`
/// is at most `p_value`.
pub open spec fn spec_significant(count: int, permutations: int, p_value: Ratio) -> bool {
    count * p_value.den <= p_value.num * (permutations + 1)
}

/// A transcript of one run of the permutation test: the arguments of the
/// observed call, the observed statistic, and each trial's resample and
/// statistic.
pub struct PermutationEvidence {
    pub observed_args: (Vec<i64>, Vec<i64>),
    pub t_obs: Ratio,
    pub splits: Seq<(Vec<i64>, Vec<i64>)>,
    pub tvals: Seq<Ratio>,
}

impl PermutationEvidence {
    /// The transcript shows `decision` to be the test's outcome on samples
    /// `a`, `b` under the statistic `hypothesis`: the observed statistic came
    /// from `hypothesis` on `a`, `b`; every trial is a resample of the pool
    /// with its statistic again from `hypothesis`; and the decision is the
    /// p-value rule applied to the count of exceeding trials.
    pub open spec fn supports<F: Fn(Vec<i64>, Vec<i64>) -> Ratio>(
        self,
        hypothesis: F,
        a: Seq<i64>,
        b: Seq<i64>,
        p_value: Ratio,
        permutations: int,
        decision: bool,
    ) -> bool {
        &&& self.observed_args.0@ == a
        &&& self.observed_args.1@ == b
        &&& call_ensures(hypothesis, self.observed_args, self.t_obs)
        &&& self.splits.len() == permutations
        &&& self.tvals.len() == permutations
        &&& forall|k: int|
            0 <= k < permutations ==> #[trigger] is_resample(
                self.splits[k].0@,
                self.splits[k].1@,
                a,
                b,
            )
        &&& forall|k: int|
            0 <= k < permutations ==> #[trigger] call_ensures(
                hypothesis,
                self.splits[k],
                self.tvals[k],
            )
        &&& decision == spec_significant(exceed_count(self.tvals, self.t_obs), permutations, p_value)
    }

    /// As [`PermutationEvidence::supports`], with the statistic pinned to the
    /// weighted energy statistic of the two sides.
    pub open spec fn supports_energy(
        self,
        a: Seq<i64>,
        b: Seq<i64>,
        p_value: Ratio,
        permutations: int,
        decision: bool,
    ) -> bool {
        &&& self.observed_args.0@ == a
        &&& self.observed_args.1@ == b
        &&& self.t_obs == crate::estimator::spec_t_stat(a, b)
        &&& self.splits.len() == permutations
        &&& self.tvals.len() == permutations
        &&& forall|k: int|
            0 <= k < permutations ==> #[trigger] is_resample(
                self.splits[k].0@,
                self.splits[k].1@,
                a,
                b,
            )
        &&& forall|k: int|
            0 <= k < permutations ==> #[trigger] self.tvals[k] == crate::estimator::spec_t_stat(
                self.splits[k].0@,
                self.splits[k].1@,
            )
        &&& decision == spec_significant(exceed_count(self.tvals, self.t_obs), permutations, p_value)
    }
}

/// Some transcript with the weighted energy statistic supports `decision`.
pub open spec fn energy_permutation_outcome(
    a: Seq<i64>,
    b: Seq<i64>,
    p_value: Ratio,
    permutations: int,
    decision: bool,
) -> bool {
    exists|ev: PermutationEvidence|
        #[trigger] ev.supports_energy(a, b, p_value, permutations, decision)
}

/// A resample of two acceptable statistic inputs is itself acceptable: the
/// sizes are kept and every element comes from the original pool.
pub proof fn lemma_resample_inputs_ok(x: Seq<i64>, y: Seq<i64>, a: Seq<i64>, b: Seq<i64>)
    requires
        is_resample(x, y, a, b),
        crate::estimator::stat_inputs_ok(a, b),
    ensures
        crate::estimator::stat_inputs_ok(x, y),
{
    lemma_pool_membership_bounded(x, y, a, b);
    lemma_pool_membership_bounded(y, x, a, b);
}

/// Every element of `x` occurs in `a + b`, hence is bounded, when `x + y`
/// or `y + x` carries the same multiset as `a + b`.
proof fn lemma_pool_membership_bounded(x: Seq<i64>, y: Seq<i64>, a: Seq<i64>, b: Seq<i64>)
    requires
        (x + y).to_multiset() == (a + b).to_multiset() || (y + x).to_multiset() == (a
            + b).to_multiset(),
        crate::estimator::samples_bounded(a),
        crate::estimator::samples_bounded(b),
    ensures
        crate::estimator::samples_bounded(x),
{
    assert forall|k: int|
        0 <= k < x.len() implies -crate::estimator::MAX_ABS_SAMPLE <= #[trigger] x[k]
        <= crate::estimator::MAX_ABS_SAMPLE by {
        let v = x[k];
        if (x + y).to_multiset() == (a + b).to_multiset() {
            assert((x + y)[k] == v);
            assert((x + y).contains(v));
            (x + y).to_multiset_ensures();
        } else {
            assert((y + x)[y.len() + k] == v);
            assert((y + x).contains(v));
            (y + x).to_multiset_ensures();
        }
        (a + b).to_multiset_ensures();
        assert((a + b).to_multiset().count(v) > 0);
        assert((a + b).contains(v));
        let i = choose|i: int| 0 <= i < (a + b).len() && (a + b)[i] == v;
        if i < a.len() {
            assert((a + b)[i] == a[i]);
        } else {
            assert((a + b)[i] == b[i - a.len()]);
        }
    }
}

/// Some transcript supports `decision`.
pub open spec fn permutation_outcome<F: Fn(Vec<i64>, Vec<i64>) -> Ratio>(
    hypothesis: F,
    a: Seq<i64>,
    b: Seq<i64>,
    p_value: Ratio,
    permutations: int,
    decision: bool,
) -> bool {
    exists|ev: PermutationEvidence|
        #[trigger] ev.supports(hypothesis, a, b, p_value, permutations, decision)
}

/// Rearranges `items` at random, in place: a Fisher-Yates shuffle driven by
/// the generator. The contents are preserved as a multiset.
pub fn shuffle<T: Copy>(items: &mut Vec<T>, rng: &mut rand::rngs::StdRng)
    ensures
        final(items)@.len() == old(items)@.len(),
        final(items)@.to_multiset() == old(items)@.to_multiset(),
{
    broadcast use vstd::seq_lib::to_multiset_update;
    broadcast use vstd::seq_lib::group_to_multiset_ensures;
    broadcast use vstd::multiset::group_multiset_axioms;

    let mut i: usize = items.len();
    while i > 1
        invariant
            i <= items@.len(),
            items@.len() == old(items)@.len(),
            items@.to_multiset() == old(items)@.to_multiset(),
        decreases i,
    {
        let j = rand_below(rng, i);
        let ghost prev = items@;
        let a = items[i - 1];
        let b = items[j];
        items.set(i - 1, b);
        items.set(j, a);
        proof {
            let ms0 = prev.to_multiset();
            let s1 = prev.update(i - 1, b);
            let s2 = s1.update(j as int, a);
            assert(items@ == s2);
            if j == i - 1 {
                assert(s2 =~= prev);
            } else {
                prev.to_multiset_ensures();
                s1.to_multiset_ensures();
                assert(prev.contains(prev[i - 1]));
                assert(ms0.count(prev[i - 1]) > 0);
                assert(s1[j as int] == prev[j as int]);
                assert(s1.contains(s1[j as int]));
                assert(s1.to_multiset().count(prev[j as int]) > 0);
                vstd::seq_lib::to_multiset_update(prev, i - 1, b);
                vstd::seq_lib::to_multiset_update(s1, j as int, a);
                assert(s1.to_multiset() == ms0.insert(b).remove(prev[i - 1]));
                assert(s2.to_multiset() == s1.to_multiset().insert(a).remove(prev[j as int]));
                assert forall|v: T| s2.to_multiset().count(v) == ms0.count(v) by {
                    assert(ms0.insert(b).count(b) == ms0.count(b) + 1);
                    assert(s1.to_multiset().insert(a).count(a) == s1.to_multiset().count(a) + 1);
                }
                assert(s2.to_multiset() =~= ms0);
            }
        }
        i = i - 1;
    }
}

/// The decision rule of the permutation test on a completed count.
pub fn significance_decision(count: usize, permutations: usize, p_value: Ratio) -> (r: bool)
    requires
        p_value.wf(),
        count <= permutations,
        permutations <= MAX_PERMUTATIONS,
    ensures
        r == spec_significant(count as int, permutations as int, p_value),
{
    proof {
        assert(0 <= (count as int) * p_value.den <= 0x4000_0000 * 0x8000_0000_0000_0000
            && -(0x8000_0000 * 0x8000_0000_0000_0000) <= p_value.num * ((permutations as int) + 1)
            <= 0x8000_0000 * 0x8000_0000_0000_0000) by (nonlinear_arith)
            requires
                0 <= count <= 0x4000_0000,
                0 < permutations + 1 <= 0x4000_0001,
                0 < p_value.den < 0x8000_0000_0000_0000,
                -0x8000_0000_0000_0000 < p_value.num < 0x8000_0000_0000_0000,
        ;
        assert(crate::rational::RATIO_BOUND == 0x8000_0000_0000_0000);
    }
    (count as i128) * p_value.den <= p_value.num * ((permutations as i128) + 1)
}

/// The permutation test: pools the two samples, draws `n_permutations` random
/// relabelings, and rejects the null hypothesis when the statistic of the
/// observed split is exceeded rarely enough among the trials.
///
/// Which relabelings are drawn depends on the generator, so the contract
/// promises a transcript: the result is the decision rule applied to some
/// sequence of genuine resamples whose statistics came from `hypothesis`.
pub fn permutation_test<F: Fn(Vec<i64>, Vec<i64>) -> Ratio>(
    alist: &Vec<i64>,
    blist: &Vec<i64>,
    hypothesis: F,
    p_value: Ratio,
    n_permutations: usize,
    rng: &mut rand::rngs::StdRng,
) -> (r: bool)
    requires
        p_value.wf(),
        1 <= n_permutations <= MAX_PERMUTATIONS,
        forall|x: Vec<i64>, y: Vec<i64>|
            #[trigger] is_resample(x@, y@, alist@, blist@) ==> call_requires(hypothesis, (x, y)),
        forall|x: Vec<i64>, y: Vec<i64>, t: Ratio|
            #[trigger] call_ensures(hypothesis, (x, y), t) ==> t.wf(),
    ensures
        permutation_outcome(hypothesis, alist@, blist@, p_value, n_permutations as int, r),
{
    let n_a = alist.len();
    let mut pool: Vec<i64> = Vec::new();
    let mut k: usize = 0;
    while k < alist.len()
        invariant
            k <= alist@.len(),
            pool@ == alist@.subrange(0, k as int),
        decreases alist@.len() - k,
    {
        pool.push(alist[k]);
        proof {
            assert(alist@.subrange(0, k as int + 1) =~= alist@.subrange(0, k as int).push(
                alist@[k as int],
            ));
        }
        k = k + 1;
    }
    let mut k2: usize = 0;
    while k2 < blist.len()
        invariant
            k2 <= blist@.len(),
            pool@ == alist@ + blist@.subrange(0, k2 as int),
        decreases blist@.len() - k2,
    {
        pool.push(blist[k2]);
        proof {
            assert(alist@ + blist@.subrange(0, k2 as int + 1) =~= (alist@ + blist@.subrange(
                0,
                k2 as int,
            )).push(blist@[k2 as int]));
        }
        k2 = k2 + 1;
    }
    proof {
        assert(alist@.subrange(0, alist@.len() as int) =~= alist@);
        assert(blist@.subrange(0, blist@.len() as int) =~= blist@);
        assert(pool@ =~= alist@ + blist@);
    }
    let ao = subvector(alist, 0, alist.len());
    let bo = subvector(blist, 0, blist.len());
    proof {
        assert(ao@ =~= alist@);
        assert(bo@ =~= blist@);
        assert(is_resample(ao@, bo@, alist@, blist@));
    }
    let ghost observed_args: (Vec<i64>, Vec<i64>) = (ao, bo);
    let t_obs = hypothesis(ao, bo);
    let mut better_num: usize = 0;
    let mut trial: usize = 0;
    let ghost mut gsplits: Seq<(Vec<i64>, Vec<i64>)> = Seq::empty();
    let ghost mut gtvals: Seq<Ratio> = Seq::empty();
    while trial < n_permutations
        invariant
            trial <= n_permutations,
            n_permutations <= MAX_PERMUTATIONS,
            better_num <= trial,
            n_a == alist@.len(),
            pool@.len() == alist@.len() + blist@.len(),
            pool@.to_multiset() == (alist@ + blist@).to_multiset(),
            p_value.wf(),
            t_obs.wf(),
            gsplits.len() == trial,
            gtvals.len() == trial,
            forall|k: int|
                0 <= k < trial ==> #[trigger] is_resample(
                    gsplits[k].0@,
                    gsplits[k].1@,
                    alist@,
                    blist@,
                ),
            forall|k: int|
                0 <= k < trial ==> #[trigger] call_ensures(hypothesis, gsplits[k], gtvals[k]),
            better_num == exceed_count(gtvals, t_obs),
            forall|x: Vec<i64>, y: Vec<i64>|
                #[trigger] is_resample(x@, y@, alist@, blist@) ==> call_requires(
                    hypothesis,
                    (x, y),
                ),
            forall|x: Vec<i64>, y: Vec<i64>, t: Ratio|
                #[trigger] call_ensures(hypothesis, (x, y), t) ==> t.wf(),
        decreases n_permutations - trial,
    {
        shuffle(&mut pool, rng);
        let na = subvector(&pool, 0, n_a);
        let nb = subvector(&pool, n_a, pool.len());
        proof {
            assert(na@ + nb@ =~= pool@);
            assert(is_resample(na@, nb@, alist@, blist@));
        }
        let ghost gsplit: (Vec<i64>, Vec<i64>) = (na, nb);
        let t_new = hypothesis(na, nb);
        let ghost old_tvals = gtvals;
        let exceeds = t_obs.lt(&t_new);
        if exceeds {
            better_num = better_num + 1;
        }
        proof {
            gsplits = gsplits.push(gsplit);
            gtvals = gtvals.push(t_new);
            assert(gtvals.drop_last() =~= old_tvals);
            assert(gtvals.last() == t_new);
        }
        trial = trial + 1;
    }
    let decision = significance_decision(better_num, n_permutations, p_value);
    proof {
        let ev = PermutationEvidence { observed_args, t_obs, splits: gsplits, tvals: gtvals };
        assert(ev.supports(
            hypothesis,
            alist@,
            blist@,
            p_value,
            n_permutations as int,
            decision,
        ));
    }
    decision
}

} // verus!
