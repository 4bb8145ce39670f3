//! E-divisive change-point search.
//!
//! `calculate_t_stats` scans every split position of a window, picks the
//! leftmost maximizer of the weighted energy statistic, and asks the
//! permutation test whether that split is significant. `e_divisive` drives
//! the scan top-down over an explicit boundary stack, collecting the accepted
//! split positions.

use vstd::prelude::*;

use crate::estimator::{
    energy_t_statistic, lemma_bounded_subrange, samples_bounded, spec_t_stat, stat_inputs_ok,
    MAX_SAMPLES,
};
use crate::hypothesis_testing::{
    energy_permutation_outcome, is_resample, lemma_resample_inputs_ok, permutation_test,
    PermutationEvidence, MAX_PERMUTATIONS,
};
use crate::rational::{lemma_rat_le_lt_trans, lemma_rat_not_lt, rat_le, rat_lt, Ratio};
use crate::subvec::subvector;

verus! {

/// Hard failures: inputs on which a statistic of the search is undefined.
#[derive(Clone, Copy, Debug, PartialEq, Eq, Structural)]
pub enum InvalidInput {
    /// The signal is too short to segment.
    SignalTooShort,
    /// A window passed the `jump` gate but offers no candidate split, so the
    /// best-split statistic would range over an empty set.
    EmptyScan,
}

/// A signal the scan accepts: bounded samples, bounded length.
pub open spec fn scan_inputs_ok(signal: Seq<i64>) -> bool {
    &&& signal.len() <= MAX_SAMPLES
    &&& samples_bounded(signal)
}

/// The statistic of splitting `signal` after position `i`: prefix `[0..=i]`
/// against suffix `[i+1..]`.
pub open spec fn split_stat(signal: Seq<i64>, i: int) -> Ratio {
    spec_t_stat(signal.subrange(0, i + 1), signal.subrange(i + 1, signal.len() as int))
}

/// `idx` is the leftmost maximizer of the split statistic: no candidate beats
/// it, and every earlier candidate is strictly below it.
pub open spec fn leftmost_best_split(signal: Seq<i64>, idx: int) -> bool {
    &&& 0 <= idx < signal.len() - 1
    &&& forall|k: int|
        0 <= k < signal.len() - 1 ==> rat_le(#[trigger] split_stat(signal, k), split_stat(signal, idx))
    &&& forall|k: int| 0 <= k < idx ==> rat_lt(#[trigger] split_stat(signal, k), split_stat(signal, idx))
}

/// The leftmost-maximizer tie-break pins the scanned split completely: no two
/// distinct positions can both be the leftmost best split of a window.
pub proof fn lemma_leftmost_best_split_unique(signal: Seq<i64>, a: int, b: int)
    requires
        leftmost_best_split(signal, a),
        leftmost_best_split(signal, b),
    ensures
        a == b,
{
    if a < b {
        assert(rat_lt(split_stat(signal, a), split_stat(signal, b)));
        assert(rat_le(split_stat(signal, b), split_stat(signal, a)));
    } else if b < a {
        assert(rat_lt(split_stat(signal, b), split_stat(signal, a)));
        assert(rat_le(split_stat(signal, a), split_stat(signal, b)));
    }
}

/// The permutation test, run on the two sides of `signal` around `idx` with
/// the weighted energy statistic, can decide `decision`.
pub open spec fn split_test_outcome(
    signal: Seq<i64>,
    idx: int,
    p_value: Ratio,
    permutations: int,
    decision: bool,
) -> bool {
    energy_permutation_outcome(
        signal.subrange(0, idx + 1),
        signal.subrange(idx + 1, signal.len() as int),
        p_value,
        permutations,
        decision,
    )
}

/// Scans all split positions of `signal` and returns the leftmost maximizer
/// of the weighted energy statistic together with its statistic, provided the
/// permutation test finds the split significant.
///
/// A window shorter than `jump` is declined without error (`Ok(None)`); a
/// window that passes that gate but has no candidate split at all is a hard
/// failure. Whether a scanned split is returned depends on the random trials:
/// either way, some transcript of genuine resamples supports the decision.
pub fn calculate_t_stats(
    signal: &Vec<i64>,
    jump: usize,
    p_value: Ratio,
    permutations: usize,
    rng: &mut rand::rngs::StdRng,
) -> (r: Result<Option<(usize, Ratio)>, InvalidInput>)
    requires
        scan_inputs_ok(signal@),
        jump >= 1,
        p_value.wf(),
        1 <= permutations <= MAX_PERMUTATIONS,
    ensures
        signal@.len() < jump ==> r == Result::<Option<(usize, Ratio)>, InvalidInput>::Ok(None),
        signal@.len() >= jump && signal@.len() < 2 ==> r == Result::<
            Option<(usize, Ratio)>,
            InvalidInput,
        >::Err(InvalidInput::EmptyScan),
        signal@.len() >= jump && signal@.len() >= 2 ==> r is Ok,
        r matches Ok(Some((idx, t))) ==> {
            &&& leftmost_best_split(signal@, idx as int)
            &&& t == split_stat(signal@, idx as int)
            &&& t.wf()
            &&& split_test_outcome(signal@, idx as int, p_value, permutations as int, true)
        },
        r == Result::<Option<(usize, Ratio)>, InvalidInput>::Ok(None) && signal@.len() >= jump
            && signal@.len() >= 2 ==> exists|idx: int|
            leftmost_best_split(signal@, idx) && #[trigger] split_test_outcome(
                signal@,
                idx,
                p_value,
                permutations as int,
                false,
            ),
{
    let len = signal.len();
    if len < jump {
        return Ok(None);
    }
    if len < 2 {
        return Err(InvalidInput::EmptyScan);
    }
    let mut t_values: Vec<Ratio> = Vec::new();
    let mut i: usize = 0;
    while i < len - 1
        invariant
            scan_inputs_ok(signal@),
            len == signal@.len(),
            2 <= len,
            i <= len - 1,
            t_values@.len() == i,
            forall|k: int| 0 <= k < i ==> #[trigger] t_values@[k] == split_stat(signal@, k),
            forall|k: int| 0 <= k < i ==> (#[trigger] t_values@[k]).wf(),
        decreases len - 1 - i,
    {
        let a = subvector(signal, 0, i + 1);
        let b = subvector(signal, i + 1, len);
        proof {
            lemma_bounded_subrange(signal@, 0, i as int + 1);
            lemma_bounded_subrange(signal@, i as int + 1, len as int);
        }
        let t = energy_t_statistic(&a, &b);
        t_values.push(t);
        i = i + 1;
    }
    let mut idx: usize = 0;
    let mut best: Ratio = t_values[0];
    let mut k: usize = 1;
    while k < len - 1
        invariant
            scan_inputs_ok(signal@),
            len == signal@.len(),
            2 <= len,
            t_values@.len() == len - 1,
            forall|j: int| 0 <= j < len - 1 ==> #[trigger] t_values@[j] == split_stat(signal@, j),
            forall|j: int| 0 <= j < len - 1 ==> (#[trigger] t_values@[j]).wf(),
            idx < k,
            1 <= k <= len - 1,
            best == t_values@[idx as int],
            forall|j: int| 0 <= j < k ==> rat_le(#[trigger] t_values@[j], best),
            forall|j: int| 0 <= j < idx ==> rat_lt(#[trigger] t_values@[j], best),
        decreases len - 1 - k,
    {
        let candidate = t_values[k];
        if best.lt(&candidate) {
            proof {
                let ghost old_best = best;
                assert forall|j: int| 0 <= j < k implies rat_le(
                    #[trigger] t_values@[j],
                    candidate,
                ) by {
                    lemma_rat_le_lt_trans(t_values@[j], old_best, candidate);
                }
                assert forall|j: int| 0 <= j < k implies rat_lt(
                    #[trigger] t_values@[j],
                    candidate,
                ) by {
                    lemma_rat_le_lt_trans(t_values@[j], old_best, candidate);
                }
            }
            idx = k;
            best = candidate;
        } else {
            proof {
                lemma_rat_not_lt(best, candidate);
            }
        }
        k = k + 1;
    }
    proof {
        assert forall|j: int| 0 <= j < len - 1 implies rat_le(
            #[trigger] split_stat(signal@, j),
            split_stat(signal@, idx as int),
        ) by {
            assert(t_values@[j] == split_stat(signal@, j));
            assert(t_values@[idx as int] == split_stat(signal@, idx as int));
        }
        assert forall|j: int| 0 <= j < idx as int implies rat_lt(
            #[trigger] split_stat(signal@, j),
            split_stat(signal@, idx as int),
        ) by {
            assert(t_values@[j] == split_stat(signal@, j));
            assert(t_values@[idx as int] == split_stat(signal@, idx as int));
        }
        assert(leftmost_best_split(signal@, idx as int));
    }
    let a = subvector(signal, 0, idx + 1);
    let b = subvector(signal, idx + 1, len);
    proof {
        lemma_bounded_subrange(signal@, 0, idx as int + 1);
        lemma_bounded_subrange(signal@, idx as int + 1, len as int);
    }
    let stat = |xs: Vec<i64>, ys: Vec<i64>| -> (t: Ratio)
        requires
            stat_inputs_ok(xs@, ys@),
        ensures
            t.wf(),
            t == spec_t_stat(xs@, ys@),
        { energy_t_statistic(&xs, &ys) };
    proof {
        assert forall|x: Vec<i64>, y: Vec<i64>|
            #[trigger] is_resample(x@, y@, a@, b@) implies call_requires(stat, (x, y)) by {
            lemma_resample_inputs_ok(x@, y@, a@, b@);
        }
    }
    let significant = permutation_test(&a, &b, stat, p_value, permutations, rng);
    proof {
        let ev = choose|ev: PermutationEvidence|
            #[trigger] ev.supports(stat, a@, b@, p_value, permutations as int, significant);
        assert(forall|args: (Vec<i64>, Vec<i64>), t: Ratio|
            #[trigger] call_ensures(stat, args, t) ==> t == spec_t_stat(args.0@, args.1@));
        assert(ev.t_obs == spec_t_stat(a@, b@));
        assert forall|j: int| 0 <= j < permutations as int implies #[trigger] ev.tvals[j]
            == spec_t_stat(ev.splits[j].0@, ev.splits[j].1@) by {
            assert(call_ensures(stat, ev.splits[j], ev.tvals[j]));
        }
        assert(ev.supports_energy(a@, b@, p_value, permutations as int, significant));
        assert(energy_permutation_outcome(a@, b@, p_value, permutations as int, significant));
        assert(split_test_outcome(signal@, idx as int, p_value, permutations as int, significant));
    }
    if significant {
        Ok(Some((idx, best)))
    } else {
        proof {
            assert(leftmost_best_split(signal@, idx as int) && split_test_outcome(
                signal@,
                idx as int,
                p_value,
                permutations as int,
                false,
            ));
        }
        Ok(None)
    }
}

/// Whether `v` holds `x`.
fn vec_contains(v: &Vec<usize>, x: usize) -> (r: bool)
    ensures
        r == v@.contains(x),
{
    let mut k: usize = 0;
    while k < v.len()
        invariant
            k <= v@.len(),
            forall|j: int| 0 <= j < k ==> v@[j] != x,
        decreases v@.len() - k,
    {
        if v[k] == x {
            return true;
        }
        k = k + 1;
    }
    false
}

/// Appending a fresh element keeps a sequence duplicate-free.
proof fn lemma_push_distinct(s: Seq<usize>, v: usize)
    requires
        s.no_duplicates(),
        !s.contains(v),
    ensures
        s.push(v).no_duplicates(),
{
    let t = s.push(v);
    assert forall|i: int, j: int|
        0 <= i < t.len() && 0 <= j < t.len() && i != j implies t[i] != t[j] by {
        if i < s.len() && j < s.len() {
            assert(t[i] == s[i] && t[j] == s[j]);
        } else if i == s.len() {
            assert(t[i] == v && t[j] == s[j]);
            if s[j] == v {
                assert(s.contains(v));
            }
        } else {
            assert(t[j] == v && t[i] == s[i]);
            if s[i] == v {
                assert(s.contains(v));
            }
        }
    }
}

/// A duplicate-free sequence of positions strictly between `0` and `bound`
/// has fewer than `bound` entries.
proof fn lemma_distinct_bounded_len(s: Seq<usize>, bound: int)
    requires
        s.no_duplicates(),
        forall|k: int| 0 <= k < s.len() ==> 0 < #[trigger] s[k] < bound,
        1 <= bound,
    ensures
        s.len() <= bound - 1,
{
    broadcast use vstd::set::group_set_axioms;

    let f = |x: usize| x as int;
    let si = s.map_values(f);
    assert(vstd::relations::injective(f));
    s.lemma_no_duplicates_injective(f);
    si.unique_seq_to_set();
    let range = vstd::set_lib::set_int_range(1, bound);
    vstd::set_lib::lemma_int_range(1, bound);
    assert forall|v: int| si.to_set().contains(v) implies range.contains(v) by {
        assert(si.contains(v));
        let k = choose|k: int| 0 <= k < si.len() && si[k] == v;
        assert(si[k] == f(s[k]));
        assert(0 < s[k] < bound);
    }
    assert(si.to_set().subset_of(range));
    vstd::set_lib::lemma_len_subset(si.to_set(), range);
}

/// Invariants of the divisive search state over a signal of length `n`: the
/// boundary stack starts at `0`, never exceeds `n - 1`, and is ordered; the
/// recorded change points are distinct and strictly inside `(0, n - 1)`.
pub open spec fn search_state_ok(window: Seq<usize>, found: Seq<usize>, n: int) -> bool {
    &&& n >= 2
    &&& window.len() >= 1
    &&& window[0] == 0
    &&& forall|k: int| 0 <= k < window.len() ==> #[trigger] window[k] <= n - 1
    &&& forall|i: int, j: int|
        #![trigger window[i], window[j]]
        0 <= i <= j < window.len() ==> window[i] <= window[j]
    &&& found.no_duplicates()
    &&& forall|k: int| 0 <= k < found.len() ==> 0 < #[trigger] found[k] < n - 1
}

/// The boundary stack and the record after one decision of the search on the
/// scanner's verdict `split`, starting from `window` and `found`. With no
/// split the top boundary is popped; a split at absolute position `lo + idx`
/// is likewise only popped when the position is already recorded or collides
/// with the first or the top boundary, and otherwise it is recorded and the
/// stack continues from it to the end of the signal.
pub open spec fn divisive_step_post(
    window: Seq<usize>,
    found: Seq<usize>,
    n: int,
    split: Option<usize>,
) -> (Seq<usize>, Seq<usize>) {
    match split {
        Option::None => (window.drop_last(), found),
        Option::Some(idx) => {
            let lo = window[window.len() - 2];
            let hi = window[window.len() - 1];
            let abs = (lo + idx) as usize;
            if found.contains(abs) || abs == window[0] || abs == hi {
                (window.drop_last(), found)
            } else {
                (window.drop_last().push(abs).push((n - 1) as usize), found.push(abs))
            }
        },
    }
}

/// The measure that shrinks with every decision of the search: recording a
/// point costs more budget than the one stack slot it adds, and a pop
/// shrinks the stack.
pub open spec fn search_measure(window: Seq<usize>, found: Seq<usize>, n: int) -> int {
    window.len() + 3 * (n - 2 - found.len())
}

/// One decision of the divisive search, given the scanner's verdict on the
/// window between the two topmost boundaries `lo` and `hi`.
///
/// With no split, the top boundary is popped: the search backtracks. With a
/// split at local index `idx` — absolute position `lo + idx` — the position
/// is rejected (top popped, nothing recorded) when it is already recorded or
/// coincides with the first boundary or with `hi`; otherwise it is recorded
/// and the stack is rearranged so that the next window runs from the new
/// point to the end of the signal.
#[verifier::rlimit(50)]
pub fn divisive_step(
    window: &mut Vec<usize>,
    found: &mut Vec<usize>,
    n: usize,
    split: Option<usize>,
)
    requires
        search_state_ok(old(window)@, old(found)@, n as int),
        old(window)@.len() >= 2,
        split matches Some(idx) ==> old(window)@[old(window)@.len() - 2] + idx + 1 < old(
            window,
        )@[old(window)@.len() - 1],
    ensures
        search_state_ok(final(window)@, final(found)@, n as int),
        (final(window)@, final(found)@) == divisive_step_post(
            old(window)@,
            old(found)@,
            n as int,
            split,
        ),
        search_measure(final(window)@, final(found)@, n as int) < search_measure(
            old(window)@,
            old(found)@,
            n as int,
        ),
{
    proof {
        lemma_distinct_bounded_len(old(found)@, n as int - 1);
    }
    let wlen = window.len();
    let lo = window[wlen - 2];
    let hi = window[wlen - 1];
    match split {
        None => {
            window.pop();
        },
        Some(idx) => {
            let abs = lo + idx;
            if vec_contains(found, abs) || abs == window[0] || abs == hi {
                window.pop();
            } else {
                proof {
                    lemma_push_distinct(found@, abs);
                }
                found.push(abs);
                window.pop();
                let top = window[window.len() - 1];
                window.push(top + idx);
                window.push(n - 1);
                proof {
                    let w0 = old(window)@;
                    let w2 = window@;
                    assert(w2 =~= w0.drop_last().push(abs).push((n - 1) as usize));
                    assert(w0[w0.len() - 2] <= abs <= n - 1);
                    assert forall|i: int, j: int|
                        #![trigger w2[i], w2[j]]
                        0 <= i <= j < w2.len() implies w2[i] <= w2[j] by {
                        if j < w0.len() - 1 {
                            assert(w2[i] == w0[i] && w2[j] == w0[j]);
                        } else if j == w0.len() - 1 {
                            assert(w2[j] == abs);
                            if i < j {
                                assert(w2[i] == w0[i]);
                                assert(w0[i] <= w0[w0.len() - 2]);
                            }
                        } else {
                            assert(w2[j] == n - 1);
                            if i < w0.len() - 1 {
                                assert(w2[i] == w0[i] && w0[i] <= n - 1);
                            } else if i == w0.len() - 1 {
                                assert(w2[i] == abs);
                            }
                        }
                    }
                    lemma_distinct_bounded_len(found@, n as int - 1);
                }
            }
        },
    }
}

/// One probe of the divisive search: the boundary stack and the recorded
/// points at the time, and the scanner's verdict on the window between the
/// two topmost boundaries.
pub struct SearchStep {
    pub window: Seq<usize>,
    pub found: Seq<usize>,
    pub split: Option<usize>,
}

impl SearchStep {
    /// The verdict is one the scan of this step's window can reach: a window
    /// shorter than `jump` is declined; otherwise the verdict names the
    /// leftmost best split, kept or dropped according to a permutation-test
    /// transcript on its two sides.
    pub open spec fn justified(
        self,
        signal: Seq<i64>,
        jump: int,
        p_value: Ratio,
        permutations: int,
    ) -> bool {
        let lo = self.window[self.window.len() - 2] as int;
        let hi = self.window[self.window.len() - 1] as int;
        let sub = signal.subrange(lo, hi);
        &&& self.window.len() >= 2
        &&& 0 <= lo <= hi <= signal.len()
        &&& match self.split {
            Option::None => sub.len() < jump || (exists|idx: int|
                leftmost_best_split(sub, idx) && #[trigger] split_test_outcome(
                    sub,
                    idx,
                    p_value,
                    permutations,
                    false,
                )),
            Option::Some(idx) => sub.len() >= jump && leftmost_best_split(sub, idx as int)
                && split_test_outcome(sub, idx as int, p_value, permutations, true),
        }
    }
}

/// `steps` is a complete run of the divisive search over `signal` ending in
/// `result`: the first probe sees the whole-signal state, every verdict is
/// justified for its window, every state follows from the previous one by the
/// step rule, and after the last step the stack is exhausted with `result`
/// recorded.
pub open spec fn divisive_search_run(
    signal: Seq<i64>,
    jump: int,
    p_value: Ratio,
    permutations: int,
    steps: Seq<SearchStep>,
    result: Seq<usize>,
) -> bool {
    let n = signal.len() as int;
    &&& steps.len() >= 1
    &&& steps[0].window == seq![0usize, (n - 1) as usize]
    &&& steps[0].found == Seq::<usize>::empty()
    &&& forall|k: int|
        0 <= k < steps.len() ==> (#[trigger] steps[k]).justified(signal, jump, p_value, permutations)
    &&& forall|k: int|
        0 <= k < steps.len() - 1 ==> (
        (#[trigger] steps[k + 1]).window,
        steps[k + 1].found,
        ) == divisive_step_post(steps[k].window, steps[k].found, n, steps[k].split)
    &&& divisive_step_post(steps.last().window, steps.last().found, n, steps.last().split).0.len()
        == 1
    &&& divisive_step_post(steps.last().window, steps.last().found, n, steps.last().split).1
        == result
}

/// Some complete run of the divisive search over `signal` produces `result`.
pub open spec fn some_divisive_search_run(
    signal: Seq<i64>,
    jump: int,
    p_value: Ratio,
    permutations: int,
    result: Seq<usize>,
) -> bool {
    exists|steps: Seq<SearchStep>|
        #[trigger] divisive_search_run(signal, jump, p_value, permutations, steps, result)
}

/// The e-divisive search: starting from the whole signal, repeatedly scan the
/// window between the two topmost boundaries, record a significant split and
/// continue to its right, or backtrack when the window yields nothing.
///
/// The returned positions are distinct and strictly inside `(0, len - 1)`,
/// and some complete run of the search — each verdict backed by a scan of its
/// window and a permutation-test transcript — produces exactly them.
///
/// A signal shorter than two samples is rejected. With `jump >= 2` the search
/// cannot fail afterwards; with `jump == 1` a one-sample window reaches the
/// scanner and its hard failure is propagated.
pub fn e_divisive(
    signal: &Vec<i64>,
    jump: usize,
    p_value: Ratio,
    permutations: usize,
    rng: &mut rand::rngs::StdRng,
) -> (r: Result<Vec<usize>, InvalidInput>)
    requires
        scan_inputs_ok(signal@),
        jump >= 1,
        p_value.wf(),
        1 <= permutations <= MAX_PERMUTATIONS,
    ensures
        signal@.len() < 2 <==> r == Result::<Vec<usize>, InvalidInput>::Err(
            InvalidInput::SignalTooShort,
        ),
        jump >= 2 && signal@.len() >= 2 ==> r is Ok,
        r matches Ok(found) ==> found@.no_duplicates(),
        r matches Ok(found) ==> forall|k: int|
            0 <= k < found@.len() ==> 0 < #[trigger] found@[k] < signal@.len() - 1,
        r matches Ok(found) ==> some_divisive_search_run(
            signal@,
            jump as int,
            p_value,
            permutations as int,
            found@,
        ),
{
    let n = signal.len();
    if n < 2 {
        return Err(InvalidInput::SignalTooShort);
    }
    let mut change_points: Vec<usize> = Vec::new();
    let mut window: Vec<usize> = Vec::new();
    window.push(0);
    window.push(n - 1);
    let ghost mut gsteps: Seq<SearchStep> = Seq::empty();
    proof {
        assert(window@ == seq![0usize, (n - 1) as usize]);
    }
    while window.len() > 1
        invariant
            n == signal@.len(),
            2 <= n,
            scan_inputs_ok(signal@),
            jump >= 1,
            p_value.wf(),
            1 <= permutations <= MAX_PERMUTATIONS,
            search_state_ok(window@, change_points@, n as int),
            gsteps.len() == 0 ==> window@ == seq![0usize, (n - 1) as usize] && change_points@
                == Seq::<usize>::empty(),
            gsteps.len() >= 1 ==> gsteps[0].window == seq![0usize, (n - 1) as usize]
                && gsteps[0].found == Seq::<usize>::empty(),
            forall|k: int|
                0 <= k < gsteps.len() ==> (#[trigger] gsteps[k]).justified(
                    signal@,
                    jump as int,
                    p_value,
                    permutations as int,
                ),
            forall|k: int|
                0 <= k < gsteps.len() - 1 ==> (
                (#[trigger] gsteps[k + 1]).window,
                gsteps[k + 1].found,
                ) == divisive_step_post(gsteps[k].window, gsteps[k].found, n as int, gsteps[k].split),
            gsteps.len() >= 1 ==> (window@, change_points@) == divisive_step_post(
                gsteps.last().window,
                gsteps.last().found,
                n as int,
                gsteps.last().split,
            ),
        decreases search_measure(window@, change_points@, n as int),
    {
        proof {
            lemma_distinct_bounded_len(change_points@, n as int - 1);
        }
        let wlen = window.len();
        let lo = window[wlen - 2];
        let hi = window[wlen - 1];
        let sub = subvector(signal, lo, hi);
        proof {
            lemma_bounded_subrange(signal@, lo as int, hi as int);
        }
        match calculate_t_stats(&sub, jump, p_value, permutations, rng) {
            Err(e) => {
                return Err(e);
            },
            Ok(verdict) => {
                let split = match verdict {
                    Some((idx, _t)) => Some(idx),
                    None => None,
                };
                let ghost this_step = SearchStep { window: window@, found: change_points@, split };
                proof {
                    assert(sub@ == signal@.subrange(lo as int, hi as int));
                    if split is Some {
                        assert(sub@.len() >= jump);
                    } else {
                        if sub@.len() >= jump {
                            assert(sub@.len() >= 2);
                        }
                    }
                    assert(this_step.justified(signal@, jump as int, p_value, permutations as int));
                }
                let ghost prev_steps = gsteps;
                divisive_step(&mut window, &mut change_points, n, split);
                proof {
                    gsteps = gsteps.push(this_step);
                    assert(gsteps.last() == this_step);
                    assert forall|k: int| 0 <= k < gsteps.len() implies (
                    #[trigger] gsteps[k]).justified(
                        signal@,
                        jump as int,
                        p_value,
                        permutations as int,
                    ) by {
                        if k < prev_steps.len() {
                            assert(gsteps[k] == prev_steps[k]);
                        }
                    }
                    assert forall|k: int| 0 <= k < gsteps.len() - 1 implies (
                    (#[trigger] gsteps[k + 1]).window,
                    gsteps[k + 1].found,
                    ) == divisive_step_post(
                        gsteps[k].window,
                        gsteps[k].found,
                        n as int,
                        gsteps[k].split,
                    ) by {
                        if k + 1 < prev_steps.len() {
                            assert(gsteps[k] == prev_steps[k]);
                            assert(gsteps[k + 1] == prev_steps[k + 1]);
                        } else {
                            assert(gsteps[k] == prev_steps.last());
                            assert(gsteps[k + 1] == this_step);
                        }
                    }
                }
            },
        }
    }
    proof {
        assert(window@.len() == 1);
        assert(gsteps.len() >= 1);
        assert(divisive_search_run(
            signal@,
            jump as int,
            p_value,
            permutations as int,
            gsteps,
            change_points@,
        ));
        assert(some_divisive_search_run(
            signal@,
            jump as int,
            p_value,
            permutations as int,
            change_points@,
        ));
    }
    Ok(change_points)
}

} // verus!
