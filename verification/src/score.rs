//! Exact scores. A score is a non-negative rational number of hundredths of
//! a point, so that weights such as 1.2 and averages over a placement's cells
//! are held without rounding.

use vstd::prelude::*;

verus! {

/// A rational number `num / den`.
pub struct Ratio {
    pub num: int,
    pub den: int,
}

impl Ratio {
    /// Whether this is a non-negative number with a positive denominator.
    pub open spec fn wf(self) -> bool {
        self.num >= 0 && self.den > 0
    }

    /// Whether this number is at most `other`.
    pub open spec fn le(self, other: Ratio) -> bool {
        self.num * other.den <= other.num * self.den
    }

    /// Whether this number is less than `other`.
    pub open spec fn lt(self, other: Ratio) -> bool {
        self.num * other.den < other.num * self.den
    }

    /// Whether this number equals `other`.
    pub open spec fn same(self, other: Ratio) -> bool {
        self.num * other.den == other.num * self.den
    }
}

/// The whole number `n`.
pub open spec fn whole(n: int) -> Ratio {
    Ratio { num: n, den: 1 }
}

/// The number `base + num / den`, and `base` alone where `den` is zero.
pub open spec fn mixed(base: int, num: int, den: int) -> Ratio {
    if den > 0 {
        Ratio { num: base * den + num, den }
    } else {
        whole(base)
    }
}

/// Whole numbers are ordered as scores as they are as integers.
pub proof fn lemma_whole_order(a: int, b: int)
    ensures
        whole(a).le(whole(b)) <==> a <= b,
        whole(a).lt(whole(b)) <==> a < b,
{
    assert(a * 1 == a && b * 1 == b) by (nonlinear_arith);
}

/// The order of scores is transitive.
pub proof fn lemma_le_transitive(a: Ratio, b: Ratio, c: Ratio)
    requires
        a.wf(),
        b.wf(),
        c.wf(),
        a.le(b),
        b.le(c),
    ensures
        a.le(c),
{
    assert(a.num * c.den <= c.num * a.den) by (nonlinear_arith)
        requires
            a.num * b.den <= b.num * a.den,
            b.num * c.den <= c.num * b.den,
            a.num >= 0,
            b.num >= 0,
            c.num >= 0,
            a.den > 0,
            b.den > 0,
            c.den > 0,
    {
        assert(a.num * b.den * c.den <= b.num * a.den * c.den);
        assert(b.num * c.den * a.den <= c.num * b.den * a.den);
        assert(b.num * a.den * c.den == b.num * c.den * a.den);
        assert((a.num * c.den) * b.den <= (c.num * a.den) * b.den);
    }
}

/// What is at most a score that is less than a third is less than the third.
pub proof fn lemma_le_lt_transitive(a: Ratio, b: Ratio, c: Ratio)
    requires
        a.wf(),
        b.wf(),
        c.wf(),
        a.le(b),
        b.lt(c),
    ensures
        a.lt(c),
{
    assert(a.num * c.den < c.num * a.den) by (nonlinear_arith)
        requires
            a.num * b.den <= b.num * a.den,
            b.num * c.den < c.num * b.den,
            a.num >= 0,
            b.num >= 0,
            c.num >= 0,
            a.den > 0,
            b.den > 0,
            c.den > 0,
    {
        assert(a.num * b.den * c.den <= b.num * a.den * c.den);
        assert(b.num * c.den * a.den < c.num * b.den * a.den);
        assert(b.num * a.den * c.den == b.num * c.den * a.den);
        assert((a.num * c.den) * b.den < (c.num * a.den) * b.den);
    }
}

/// Of two scores one is at most the other, and "less than" is the contrary
/// of "at least".
pub proof fn lemma_le_total(a: Ratio, b: Ratio)
    ensures
        a.le(b) || b.le(a),
        a.lt(b) <==> !b.le(a),
        a.same(b) <==> a.le(b) && b.le(a),
{
}

/// A score in hundredths of a point: `whole + part / parts` of them. Two
/// scores may be equal as numbers and differ in their fields.
#[derive(Debug, Clone, Copy, PartialEq, Eq)]
pub struct Score {
    pub whole: u128,
    pub part: usize,
    pub parts: usize,
}

impl View for Score {
    type V = Ratio;

    open spec fn view(&self) -> Ratio {
        Ratio { num: self.whole * self.parts + self.part, den: self.parts as int }
    }
}

impl Score {
    /// Whether the fraction is a proper one: `part < parts`.
    pub open spec fn wf(&self) -> bool {
        self.part < self.parts
    }

    /// A well-formed score stands for a non-negative number with a positive
    /// denominator.
    pub proof fn lemma_view_wf(self)
        requires
            self.wf(),
        ensures
            self@.wf(),
    {
        assert(self.whole * self.parts >= 0) by (nonlinear_arith)
            requires
                self.whole >= 0,
                self.parts >= 0,
        ;
    }

    /// Two well-formed scores that stand for the same fraction are the same
    /// in every field.
    pub proof fn lemma_fields_follow_view(self, other: Score)
        requires
            self.wf(),
            other.wf(),
            self@ == other@,
        ensures
            self == other,
    {
        assert(self.whole == other.whole && self.part == other.part) by (nonlinear_arith)
            requires
                self.whole * self.parts + self.part == other.whole * self.parts + other.part,
                0 <= self.part < self.parts,
                0 <= other.part < self.parts,
                self.whole >= 0,
                other.whole >= 0,
        {
            if self.whole < other.whole {
                assert((self.whole + 1) * self.parts <= other.whole * self.parts);
            } else if other.whole < self.whole {
                assert((other.whole + 1) * self.parts <= self.whole * self.parts);
            }
        }
    }

    /// The score of `hundredths` hundredths of a point.
    pub fn from_hundredths(hundredths: u128) -> (score: Self)
        ensures
            score.wf(),
            score@ == whole(hundredths as int),
    {
        let score = Score { whole: hundredths, part: 0, parts: 1 };
        assert(hundredths * 1 + 0 == hundredths) by (nonlinear_arith);
        score
    }

    /// The score `base + num / den` hundredths, and `base` alone where `den`
    /// is zero.
    pub fn from_mixed(base: u128, num: u128, den: usize) -> (score: Self)
        requires
            base + num <= u128::MAX,
        ensures
            score.wf(),
            score@ == mixed(base as int, num as int, den as int),
    {
        if den == 0 {
            Score::from_hundredths(base)
        } else {
            let quotient: u128 = num / (den as u128);
            let rest: u128 = num % (den as u128);
            assert(quotient * den + rest == num && quotient <= num) by (nonlinear_arith)
                requires
                    quotient == num / (den as u128),
                    rest == num % (den as u128),
                    den > 0,
            ;
            let score = Score { whole: base + quotient, part: rest as usize, parts: den };
            assert((base + quotient) * den + rest == base * den + num) by (nonlinear_arith)
                requires
                    quotient * den + rest == num,
            ;
            score
        }
    }

    /// Whether this score is at most `other`.
    pub fn at_most(&self, other: &Score) -> (yes: bool)
        requires
            self.wf(),
            other.wf(),
        ensures
            yes == self@.le(other@),
    {
        let (w1, r1, d1) = (self.whole, self.part, self.parts);
        let (w2, r2, d2) = (other.whole, other.part, other.parts);
        proof {
            assert(r1 * d2 <= u128::MAX && r2 * d1 <= u128::MAX) by (nonlinear_arith)
                requires
                    r1 <= 0xffff_ffff_ffff_ffff,
                    r2 <= 0xffff_ffff_ffff_ffff,
                    d1 <= 0xffff_ffff_ffff_ffff,
                    d2 <= 0xffff_ffff_ffff_ffff,
            ;
            if w1 < w2 {
                assert((w1 * d1 + r1) * d2 <= (w2 * d2 + r2) * d1) by (nonlinear_arith)
                    requires
                        w1 + 1 <= w2,
                        r1 < d1,
                        0 <= r2,
                        0 < d1,
                        0 < d2,
                {
                    assert((w1 * d1 + r1) * d2 <= (w1 + 1) * d1 * d2);
                    assert((w1 + 1) * d1 * d2 <= w2 * d1 * d2);
                    assert(w2 * d1 * d2 <= (w2 * d2 + r2) * d1);
                }
            } else if w2 < w1 {
                assert((w2 * d2 + r2) * d1 < (w1 * d1 + r1) * d2) by (nonlinear_arith)
                    requires
                        w2 + 1 <= w1,
                        r2 < d2,
                        0 <= r1,
                        0 < d1,
                        0 < d2,
                {
                    assert((w2 * d2 + r2) * d1 < (w2 + 1) * d2 * d1);
                    assert((w2 + 1) * d2 * d1 <= w1 * d1 * d2);
                    assert(w1 * d1 * d2 <= (w1 * d1 + r1) * d2);
                }
            } else {
                assert(((w1 * d1 + r1) * d2 <= (w2 * d2 + r2) * d1) == (r1 * d2 <= r2 * d1))
                    by (nonlinear_arith)
                    requires
                        w1 == w2,
                ;
            }
        }
        if w1 < w2 {
            true
        } else if w2 < w1 {
            false
        } else {
            (r1 as u128) * (d2 as u128) <= (r2 as u128) * (d1 as u128)
        }
    }

    /// Whether this score is greater than `other`.
    pub fn exceeds(&self, other: &Score) -> (yes: bool)
        requires
            self.wf(),
            other.wf(),
        ensures
            yes == other@.lt(self@),
    {
        !self.at_most(other)
    }

    /// Whether this score is greater than zero.
    pub fn is_positive(&self) -> (yes: bool)
        requires
            self.wf(),
        ensures
            yes == (self@.num > 0),
    {
        assert((self.whole * self.parts + self.part > 0) == (self.whole > 0 || self.part > 0))
            by (nonlinear_arith)
            requires
                self.parts > 0,
        ;
        self.whole > 0 || self.part > 0
    }
}

} // verus!
