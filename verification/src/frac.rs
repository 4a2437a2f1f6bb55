//! Exact progress fractions.
//!
//! Progress values are rationals in `[0, 1]`, held as a numerator and a
//! positive denominator.  The order used throughout the crate is the order
//! of the rational values, decided by cross-multiplication; two fractions
//! with different representations (such as `1/2` and `2/4`) can stand for
//! the same value.

use vstd::prelude::*;

verus! {

/// A progress fraction: the exact rational `num / den`.
#[derive(Clone, Copy, Debug, PartialEq, Eq, Structural)]
pub struct Frac {
    pub num: u64,
    pub den: u64,
}

impl Frac {
    /// Well-formed: positive denominator, value no greater than one.
    pub open spec fn wf(self) -> bool {
        1 <= self.den && self.num <= self.den
    }

    /// `self <= other` as rational values, by cross-multiplication.
    pub open spec fn spec_le(self, other: Frac) -> bool {
        self.num * other.den <= other.num * self.den
    }

    /// `self == other` as rational values.
    pub open spec fn same_value(self, other: Frac) -> bool {
        self.num * other.den == other.num * self.den
    }

    /// The value is exactly one.
    pub open spec fn is_one(self) -> bool {
        self.num == self.den
    }

    /// The value is exactly zero.
    pub open spec fn is_zero(self) -> bool {
        self.num == 0
    }

    /// The fraction `0 / 1`.
    pub fn zero() -> (r: Frac)
        ensures
            r.wf(),
            r.is_zero(),
            r == (Frac { num: 0, den: 1 }),
    {
        Frac { num: 0, den: 1 }
    }

    /// The fraction `1 / 1`.
    pub fn one() -> (r: Frac)
        ensures
            r.wf(),
            r.is_one(),
            r == (Frac { num: 1, den: 1 }),
    {
        Frac { num: 1, den: 1 }
    }

    /// Decides `self <= other` on the rational values.
    pub fn le(&self, other: &Frac) -> (r: bool)
        ensures
            r == self.spec_le(*other),
    {
        proof {
            lemma_u64_mul_fits(self.num, other.den);
            lemma_u64_mul_fits(other.num, self.den);
        }
        (self.num as u128) * (other.den as u128) <= (other.num as u128) * (self.den as u128)
    }

    /// Decides whether the two fractions have the same rational value.
    pub fn eq_value(&self, other: &Frac) -> (r: bool)
        ensures
            r == self.same_value(*other),
    {
        proof {
            lemma_u64_mul_fits(self.num, other.den);
            lemma_u64_mul_fits(other.num, self.den);
        }
        (self.num as u128) * (other.den as u128) == (other.num as u128) * (self.den as u128)
    }

    /// The larger of the two values (the second where they are equal).
    pub fn max(self, other: Frac) -> (r: Frac)
        ensures
            r == if self.spec_le(other) { other } else { self },
    {
        if self.le(&other) {
            other
        } else {
            self
        }
    }
}

/// The product of two `u64` values fits in a `u128`.
proof fn lemma_u64_mul_fits(a: u64, b: u64)
    by (nonlinear_arith)
    ensures
        a * b <= u128::MAX,
{
}

/// A value below one that bounds another from above keeps it below one.
pub proof fn lemma_below_one(a: Frac, b: Frac)
    by (nonlinear_arith)
    requires
        a.wf(),
        1 <= b.den,
        a.spec_le(b),
        b.num < b.den,
    ensures
        a.num < a.den,
{
}

/// The rational order is total: of two values, one is below the other.
pub proof fn lemma_le_total(a: Frac, b: Frac)
    ensures
        a.spec_le(b) || b.spec_le(a),
{
}

/// The rational order is transitive on well-formed fractions.
pub proof fn lemma_le_trans(a: Frac, b: Frac, c: Frac)
    by (nonlinear_arith)
    requires
        1 <= a.den,
        1 <= b.den,
        1 <= c.den,
        a.spec_le(b),
        b.spec_le(c),
    ensures
        a.spec_le(c),
{
}

/// Zero is the least value and one the greatest among well-formed fractions.
pub proof fn lemma_le_bounds(a: Frac)
    by (nonlinear_arith)
    requires
        a.wf(),
    ensures
        (Frac { num: 0, den: 1 }).spec_le(a),
        a.spec_le(Frac { num: 1, den: 1 }),
        a.is_one() ==> (Frac { num: 1, den: 1 }).spec_le(a),
{
}

} // verus!
