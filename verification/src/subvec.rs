//! Copying a contiguous range of a sample vector.

use vstd::prelude::*;

verus! {

/// A fresh vector holding `v[from..to]`.
pub fn subvector(v: &Vec<i64>, from: usize, to: usize) -> (r: Vec<i64>)
    requires
        from <= to <= v@.len(),
    ensures
        r@ == v@.subrange(from as int, to as int),
{
    let mut r: Vec<i64> = Vec::new();
    let mut k: usize = from;
    while k < to
        invariant
            from <= k <= to <= v@.len(),
            r@ == v@.subrange(from as int, k as int),
        decreases to - k,
    {
        r.push(v[k]);
        proof {
            assert(v@.subrange(from as int, k as int + 1) =~= v@.subrange(from as int, k as int)
                .push(v@[k as int]));
        }
        k = k + 1;
    }
    r
}

} // verus!
