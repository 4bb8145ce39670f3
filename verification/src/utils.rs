//! Index-returning selection and sorting, generic over `PartialOrd`.
//!
//! The contracts are stated against the type's comparison specification.
//! For types whose comparisons form a total order — the integer types, for
//! instance — the results are pinned exactly; for types with partial or
//! lawless comparisons only the structural guarantees (index ranges, no
//! duplicates) remain.

use core::cmp::Ordering;
use vstd::prelude::*;
use vstd::std_specs::cmp::{PartialOrdIs, PartialOrdSpec};

verus! {

/// The comparison specification of `T` behaves as a total order: every pair
/// is comparable, `<` and `>` mirror each other, `<` chains, and equal
/// elements compare alike against everything.
pub open spec fn comparisons_are_total_order<T: PartialOrd>() -> bool {
    &&& forall|a: T, b: T| (#[trigger] a.partial_cmp_spec(&b)) is Some
    &&& forall|a: T, b: T|
        #![trigger a.partial_cmp_spec(&b)]
        a.partial_cmp_spec(&b) == Some(Ordering::Less) <==> b.partial_cmp_spec(&a) == Some(
            Ordering::Greater,
        )
    &&& forall|a: T, b: T, c: T|
        #![trigger a.partial_cmp_spec(&b), b.partial_cmp_spec(&c)]
        a.partial_cmp_spec(&b) == Some(Ordering::Less) && b.partial_cmp_spec(&c) == Some(
            Ordering::Less,
        ) ==> a.partial_cmp_spec(&c) == Some(Ordering::Less)
    &&& forall|a: T, b: T, c: T|
        #![trigger a.partial_cmp_spec(&b), b.partial_cmp_spec(&c)]
        a.partial_cmp_spec(&b) == Some(Ordering::Equal) ==> a.partial_cmp_spec(&c)
            == b.partial_cmp_spec(&c)
}

/// The sample type's comparisons form a total order, so the selection and
/// sorting contracts below apply to `i64` unconditionally.
pub proof fn lemma_i64_comparisons_are_total_order()
    ensures
        i64::obeys_partial_cmp_spec(),
        comparisons_are_total_order::<i64>(),
{
}

/// Comparisons that behave as a total order make "not below" transitive.
proof fn lemma_ge_trans<T: PartialOrd>(a: T, b: T, c: T)
    requires
        comparisons_are_total_order::<T>(),
        !a.is_lt(&b),
        !b.is_lt(&c),
    ensures
        !a.is_lt(&c),
{
    if a.partial_cmp_spec(&b) == Some(Ordering::Equal) {
        assert(a.partial_cmp_spec(&c) == b.partial_cmp_spec(&c));
    } else {
        assert(a.partial_cmp_spec(&b) == Some(Ordering::Greater));
        assert(b.partial_cmp_spec(&a) == Some(Ordering::Less));
        if b.partial_cmp_spec(&c) == Some(Ordering::Equal) {
            assert(b.partial_cmp_spec(&a) == c.partial_cmp_spec(&a));
            assert(a.partial_cmp_spec(&c) == Some(Ordering::Greater));
        } else {
            assert(b.partial_cmp_spec(&c) == Some(Ordering::Greater));
            assert(c.partial_cmp_spec(&b) == Some(Ordering::Less));
            assert(c.partial_cmp_spec(&a) == Some(Ordering::Less));
            assert(a.partial_cmp_spec(&c) == Some(Ordering::Greater));
        }
    }
}

/// Index of the first occurring maximum of `x`.
///
/// When the type's executable comparison matches its specification and that
/// specification is a total order, the returned index holds an element no
/// other element exceeds, and every earlier element is strictly below it.
pub fn argmax<T: Copy + PartialOrd>(x: &Vec<T>) -> (r: usize)
    requires
        x@.len() > 0,
    ensures
        r < x@.len(),
        T::obeys_partial_cmp_spec() && comparisons_are_total_order::<T>() ==> {
            &&& forall|k: int| #![trigger x@[k]] 0 <= k < x@.len() ==> !x@[r as int].is_lt(&x@[k])
            &&& forall|k: int| #![trigger x@[k]] 0 <= k < r as int ==> x@[k].is_lt(&x@[r as int])
        },
{
    let ghost lawful = T::obeys_partial_cmp_spec() && comparisons_are_total_order::<T>();
    let mut max_index: usize = 0;
    let mut i: usize = 1;
    while i < x.len()
        invariant
            x@.len() > 0,
            max_index < i,
            1 <= i <= x@.len(),
            lawful == (T::obeys_partial_cmp_spec() && comparisons_are_total_order::<T>()),
            lawful ==> forall|k: int|
                #![trigger x@[k]]
                0 <= k < i ==> !x@[max_index as int].is_lt(&x@[k]),
            lawful ==> forall|k: int|
                #![trigger x@[k]]
                0 <= k < max_index as int ==> x@[k].is_lt(&x@[max_index as int]),
        decreases x@.len() - i,
    {
        let beats = x[max_index].lt(&x[i]);
        proof {
            if lawful {
                let cur = x@[max_index as int];
                let cand = x@[i as int];
                if beats {
                    assert(cur.is_lt(&cand));
                    assert forall|k: int| #![trigger x@[k]] 0 <= k < i + 1 implies !cand.is_lt(
                        &x@[k],
                    ) by {
                        if k == i {
                            if cand.is_lt(&cand) {
                                assert(cand.partial_cmp_spec(&cand) == Some(Ordering::Greater));
                            }
                        } else if cand.is_lt(&x@[k]) {
                            assert(cur.partial_cmp_spec(&x@[k]) == Some(Ordering::Less));
                        }
                    }
                    assert forall|k: int| #![trigger x@[k]] 0 <= k < i as int implies x@[k].is_lt(
                        &cand,
                    ) by {
                        if k < max_index as int {
                            assert(x@[k].is_lt(&cur));
                        } else if k > max_index as int {
                            assert(!cur.is_lt(&x@[k]));
                            if cur.partial_cmp_spec(&x@[k]) == Some(Ordering::Equal) {
                                assert(cur.partial_cmp_spec(&cand) == x@[k].partial_cmp_spec(
                                    &cand,
                                ));
                            } else {
                                assert(cur.partial_cmp_spec(&x@[k]) == Some(Ordering::Greater));
                                assert(x@[k].is_lt(&cur));
                            }
                        }
                    }
                } else {
                    assert(!cur.is_lt(&cand));
                }
            }
        }
        if beats {
            max_index = i;
        }
        i = i + 1;
    }
    max_index
}

/// Swapping two positions keeps a sequence duplicate-free and keeps its
/// values in place as a set.
proof fn lemma_swap_distinct(s: Seq<usize>, p: int, q: int)
    requires
        s.no_duplicates(),
        0 <= p < s.len(),
        0 <= q < s.len(),
    ensures
        s.update(p, s[q]).update(q, s[p]).no_duplicates(),
        forall|k: int|
            0 <= k < s.len() ==> exists|k0: int|
                0 <= k0 < s.len() && #[trigger] s.update(p, s[q]).update(q, s[p])[k] == s[k0],
{
    let t = s.update(p, s[q]).update(q, s[p]);
    assert forall|i: int, j: int|
        0 <= i < t.len() && 0 <= j < t.len() && i != j implies t[i] != t[j] by {
        let oi = if i == p && i != q {
            q
        } else if i == q {
            p
        } else {
            i
        };
        let oj = if j == p && j != q {
            q
        } else if j == q {
            p
        } else {
            j
        };
        assert(t[i] == s[oi] && t[j] == s[oj] && oi != oj);
    }
    assert forall|k: int| 0 <= k < s.len() implies exists|k0: int|
        0 <= k0 < s.len() && #[trigger] t[k] == s[k0] by {
        let k0 = if k == p && k != q {
            q
        } else if k == q {
            p
        } else {
            k
        };
        assert(t[k] == s[k0]);
    }
}

/// Indices that sort `data`: position `k` of the result holds the index of
/// the `k`-th smallest element (first the largest, when `reverse` is set).
///
/// The result is always a permutation of `0..data.len()`. When the type's
/// executable comparison matches its specification and that specification is
/// a total order, the indices are sorted by their elements; equal elements
/// are returned in an unspecified order. Incomparable pairs are left in their
/// current order.
pub fn argsort<T: PartialOrd>(data: &Vec<T>, reverse: bool) -> (r: Vec<usize>)
    ensures
        r@.len() == data@.len(),
        forall|k: int| 0 <= k < r@.len() ==> #[trigger] r@[k] < data@.len(),
        r@.no_duplicates(),
        T::obeys_partial_cmp_spec() && comparisons_are_total_order::<T>() && !reverse
            ==> forall|a: int, b: int|
            #![trigger r@[a], r@[b]]
            0 <= a <= b < r@.len() ==> !data@[r@[b] as int].is_lt(&data@[r@[a] as int]),
        T::obeys_partial_cmp_spec() && comparisons_are_total_order::<T>() && reverse
            ==> forall|a: int, b: int|
            #![trigger r@[a], r@[b]]
            0 <= a <= b < r@.len() ==> !data@[r@[a] as int].is_lt(&data@[r@[b] as int]),
{
    let ghost lawful = T::obeys_partial_cmp_spec() && comparisons_are_total_order::<T>();
    let len = data.len();
    let mut indices: Vec<usize> = Vec::new();
    let mut k: usize = 0;
    while k < len
        invariant
            k <= len,
            indices@.len() == k,
            forall|a: int| 0 <= a < k ==> #[trigger] indices@[a] == a,
        decreases len - k,
    {
        indices.push(k);
        k = k + 1;
    }
    proof {
        assert forall|i: int, j: int|
            0 <= i < indices@.len() && 0 <= j < indices@.len() && i != j implies indices@[i]
            != indices@[j] by {}
    }
    let mut i: usize = 1;
    while i < len
        invariant
            1 <= i <= len || (len == 0 && i == 1),
            len == data@.len(),
            indices@.len() == len,
            forall|a: int| 0 <= a < len ==> #[trigger] indices@[a] < len,
            indices@.no_duplicates(),
            lawful == (T::obeys_partial_cmp_spec() && comparisons_are_total_order::<T>()),
            lawful ==> forall|a: int, b: int|
                #![trigger indices@[a], indices@[b]]
                0 <= a <= b < i && b < len ==> !data@[indices@[b] as int].is_lt(
                    &data@[indices@[a] as int],
                ),
        decreases len - i,
    {
        let mut j: usize = i;
        while j > 0 && data[indices[j]].lt(&data[indices[j - 1]])
            invariant
                0 <= j <= i < len,
                len == data@.len(),
                indices@.len() == len,
                forall|a: int| 0 <= a < len ==> #[trigger] indices@[a] < len,
                indices@.no_duplicates(),
                lawful == (T::obeys_partial_cmp_spec() && comparisons_are_total_order::<T>()),
                lawful ==> forall|a: int, b: int|
                    #![trigger indices@[a], indices@[b]]
                    0 <= a <= b <= i && b != j ==> !data@[indices@[b] as int].is_lt(
                        &data@[indices@[a] as int],
                    ),
                lawful ==> forall|b: int|
                    j < b <= i ==> !data@[#[trigger] indices@[b] as int].is_lt(
                        &data@[indices@[j as int] as int],
                    ),
            decreases j,
        {
            let ghost s0 = indices@;
            let a = indices[j - 1];
            let b = indices[j];
            indices.set(j - 1, b);
            indices.set(j, a);
            proof {
                lemma_swap_distinct(s0, j - 1, j as int);
                let s2 = indices@;
                assert(s2 == s0.update(j - 1, s0[j as int]).update(j as int, s0[j - 1]));
                if lawful {
                    let moved = data@[s0[j as int] as int];
                    let bumped = data@[s0[j - 1] as int];
                    assert(moved.is_lt(&bumped));
                    assert(bumped.partial_cmp_spec(&moved) == Some(Ordering::Greater));
                    assert forall|a0: int, b0: int|
                        #![trigger s2[a0], s2[b0]]
                        0 <= a0 <= b0 <= i && b0 != j - 1 implies !data@[s2[b0] as int].is_lt(
                            &data@[s2[a0] as int],
                        ) by {
                        if b0 == j as int {
                            if a0 == j - 1 {
                                assert(!bumped.is_lt(&moved));
                            } else if a0 < j - 1 {
                                assert(s2[a0] == s0[a0] && s2[b0] == s0[j - 1]);
                            }
                        } else if b0 > j as int {
                            if a0 == j - 1 {
                                assert(s2[b0] == s0[b0] && s2[a0] == s0[j as int]);
                            } else if a0 == j as int {
                                assert(s2[b0] == s0[b0] && s2[a0] == s0[j - 1]);
                            } else {
                                assert(s2[b0] == s0[b0] && s2[a0] == s0[a0]);
                            }
                        } else {
                            assert(b0 < j - 1);
                            assert(s2[b0] == s0[b0] && s2[a0] == s0[a0]);
                        }
                    }
                    assert forall|b0: int|
                        j - 1 < b0 <= i implies !data@[#[trigger] s2[b0] as int].is_lt(
                            &data@[s2[j - 1] as int],
                        ) by {
                        if b0 == j as int {
                            assert(s2[b0] == s0[j - 1] && s2[j - 1] == s0[j as int]);
                            assert(!bumped.is_lt(&moved));
                        } else {
                            assert(s2[b0] == s0[b0] && s2[j - 1] == s0[j as int]);
                        }
                    }
                }
            }
            j = j - 1;
        }
        proof {
            if lawful {
                let s = indices@;
                assert forall|a0: int, b0: int|
                    #![trigger s[a0], s[b0]]
                    0 <= a0 <= b0 <= i implies !data@[s[b0] as int].is_lt(&data@[s[a0] as int]) by {
                    if b0 == j as int && a0 < j as int {
                        assert(!data@[s[j as int] as int].is_lt(&data@[s[j - 1] as int]));
                        assert(!data@[s[j - 1] as int].is_lt(&data@[s[a0] as int]));
                        lemma_ge_trans(
                            data@[s[j as int] as int],
                            data@[s[j - 1] as int],
                            data@[s[a0] as int],
                        );
                    }
                }
            }
        }
        i = i + 1;
    }
    if reverse {
        let mut rev: Vec<usize> = Vec::new();
        let mut k2: usize = len;
        while k2 > 0
            invariant
                k2 <= len,
                len == data@.len(),
                indices@.len() == len,
                rev@.len() == len - k2,
                forall|a: int| 0 <= a < len - k2 ==> #[trigger] rev@[a] == indices@[len - 1 - a],
            decreases k2,
        {
            rev.push(indices[k2 - 1]);
            k2 = k2 - 1;
        }
        proof {
            assert forall|a: int| 0 <= a < len implies #[trigger] rev@[a] < data@.len() by {
                assert(rev@[a] == indices@[len - 1 - a]);
            }
            assert forall|a: int, b: int|
                0 <= a < rev@.len() && 0 <= b < rev@.len() && a != b implies rev@[a] != rev@[b] by {
                assert(rev@[a] == indices@[len - 1 - a]);
                assert(rev@[b] == indices@[len - 1 - b]);
            }
            if lawful {
                assert forall|a: int, b: int|
                    #![trigger rev@[a], rev@[b]]
                    0 <= a <= b < rev@.len() implies !data@[rev@[a] as int].is_lt(
                        &data@[rev@[b] as int],
                    ) by {
                    assert(rev@[a] == indices@[len - 1 - a]);
                    assert(rev@[b] == indices@[len - 1 - b]);
                }
            }
        }
        rev
    } else {
        indices
    }
}

} // verus!
