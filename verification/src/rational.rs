//! Exact rational numbers backed by `i128`.
//!
//! Every statistic in this crate is an exact rational `num / den` with a
//! positive denominator. Keeping `|num|` and `den` below 2^63 guarantees that
//! the cross products used to compare two rationals fit in `i128`.

use vstd::prelude::*;

verus! {

/// Exclusive bound on `|num|` and `den` of a well-formed [`Ratio`]: 2^63.
pub const RATIO_BOUND: i128 = 0x8000_0000_0000_0000;

/// An exact rational number `num / den`. The derived equality is equality of
/// the two fields; equality of rational values is [`rat_eq`].
#[derive(Clone, Copy, Debug, PartialEq, Eq, Structural)]
pub struct Ratio {
    pub num: i128,
    pub den: i128,
}

/// `a < b` as rationals, by cross multiplication (denominators positive).
pub open spec fn rat_lt(a: Ratio, b: Ratio) -> bool {
    a.num * b.den < b.num * a.den
}

/// `a <= b` as rationals.
pub open spec fn rat_le(a: Ratio, b: Ratio) -> bool {
    a.num * b.den <= b.num * a.den
}

/// `a == b` as rationals (equal values, not necessarily equal fields).
pub open spec fn rat_eq(a: Ratio, b: Ratio) -> bool {
    a.num * b.den == b.num * a.den
}

impl Ratio {
    /// Denominator positive and both fields small enough that any cross
    /// product of two well-formed ratios fits in `i128`.
    pub open spec fn wf(self) -> bool {
        &&& 0 < self.den < RATIO_BOUND
        &&& -RATIO_BOUND < self.num < RATIO_BOUND
    }

    /// The rational zero.
    pub fn zero() -> (r: Ratio)
        ensures
            r.wf(),
            r.num == 0,
            r.den == 1,
    {
        Ratio { num: 0, den: 1 }
    }

    /// Builds `num / den`.
    pub fn new(num: i128, den: i128) -> (r: Ratio)
        requires
            0 < den < RATIO_BOUND,
            -RATIO_BOUND < num < RATIO_BOUND,
        ensures
            r == (Ratio { num, den }),
            r.wf(),
    {
        Ratio { num, den }
    }

    /// `self < other` as rational numbers.
    pub fn lt(&self, other: &Ratio) -> (r: bool)
        requires
            self.wf(),
            other.wf(),
        ensures
            r == rat_lt(*self, *other),
    {
        proof {
            lemma_cross_products_fit(*self, *other);
        }
        self.num * other.den < other.num * self.den
    }

    /// `self <= other` as rational numbers.
    pub fn le(&self, other: &Ratio) -> (r: bool)
        requires
            self.wf(),
            other.wf(),
        ensures
            r == rat_le(*self, *other),
    {
        proof {
            lemma_cross_products_fit(*self, *other);
        }
        self.num * other.den <= other.num * self.den
    }

    /// `self == other` as rational numbers.
    pub fn eq_value(&self, other: &Ratio) -> (r: bool)
        requires
            self.wf(),
            other.wf(),
        ensures
            r == rat_eq(*self, *other),
    {
        proof {
            lemma_cross_products_fit(*self, *other);
        }
        self.num * other.den == other.num * self.den
    }
}

/// The two cross products of a pair of well-formed ratios stay within `i128`.
proof fn lemma_cross_products_fit(a: Ratio, b: Ratio)
    requires
        a.wf(),
        b.wf(),
    ensures
        i128::MIN <= a.num * b.den <= i128::MAX,
        i128::MIN <= b.num * a.den <= i128::MAX,
{
    assert(-(RATIO_BOUND * RATIO_BOUND) < a.num * b.den < RATIO_BOUND * RATIO_BOUND)
        by (nonlinear_arith)
        requires
            -RATIO_BOUND < a.num < RATIO_BOUND,
            0 < b.den < RATIO_BOUND,
    ;
    assert(-(RATIO_BOUND * RATIO_BOUND) < b.num * a.den < RATIO_BOUND * RATIO_BOUND)
        by (nonlinear_arith)
        requires
            -RATIO_BOUND < b.num < RATIO_BOUND,
            0 < a.den < RATIO_BOUND,
    ;
}

/// Rational order: `<=` then `<` gives `<`.
pub proof fn lemma_rat_le_lt_trans(a: Ratio, b: Ratio, c: Ratio)
    requires
        a.wf(),
        b.wf(),
        c.wf(),
        rat_le(a, b),
        rat_lt(b, c),
    ensures
        rat_lt(a, c),
{
    assert(a.num * c.den < c.num * a.den) by (nonlinear_arith)
        requires
            a.num * b.den <= b.num * a.den,
            b.num * c.den < c.num * b.den,
            0 < a.den,
            0 < b.den,
            0 < c.den,
    ;
}

/// Rational order is total: not `a < b` means `b <= a`.
pub proof fn lemma_rat_not_lt(a: Ratio, b: Ratio)
    requires
        a.wf(),
        b.wf(),
    ensures
        !rat_lt(a, b) <==> rat_le(b, a),
{
}

} // verus!
