//! Exact rational numbers used for truth degrees and sample points.
//!
//! Membership degrees and universe-of-discourse samples are exact rationals:
//! a numerator over a positive denominator. Values are not reduced to lowest
//! terms; two representations denote the same rational exactly when their
//! cross products agree, which is what [`Rat::ratio_eq`] states.

use vstd::prelude::*;

verus! {

/// Magnitude limit on the components of a [`Rat`] accepted at validating
/// construction boundaries. With numerators and denominators bounded by this
/// limit, every intermediate product the crate forms fits in the machine
/// integers it is computed in.
pub const MAG_LIMIT: i64 = 1048576;

/// An exact rational number `num / den` with a positive denominator.
///
/// The fields are public plain integers; [`Rat::valid`] states the
/// representation invariant (`den >= 1`) that the constructors establish.
#[derive(Clone, Copy, Debug, PartialEq, Eq, Structural)]
pub struct Rat {
    /// Numerator.
    pub num: i64,
    /// Denominator; meaningful values keep it at `1` or above.
    pub den: i64,
}

/// `pn / pd <= qn / qd`, stated by cross multiplication.
/// Meaningful only for positive denominators.
pub open spec fn frac_le(pn: int, pd: int, qn: int, qd: int) -> bool {
    pn * qd <= qn * pd
}

/// `pn / pd < qn / qd`, stated by cross multiplication.
pub open spec fn frac_lt(pn: int, pd: int, qn: int, qd: int) -> bool {
    pn * qd < qn * pd
}

/// `pn / pd == qn / qd`, stated by cross multiplication.
pub open spec fn frac_eq(pn: int, pd: int, qn: int, qd: int) -> bool {
    pn * qd == qn * pd
}

/// The rational zero.
pub open spec fn rat_zero() -> Rat {
    Rat { num: 0, den: 1 }
}

/// The rational one.
pub open spec fn rat_one() -> Rat {
    Rat { num: 1, den: 1 }
}

impl Rat {
    /// Representation invariant: the denominator is positive.
    pub open spec fn valid(self) -> bool {
        self.den >= 1
    }

    /// Both components lie within [`MAG_LIMIT`], so products of a few of
    /// them fit in the machine integers used by the evaluation routines.
    pub open spec fn small(self) -> bool {
        &&& -MAG_LIMIT <= self.num <= MAG_LIMIT
        &&& 1 <= self.den <= MAG_LIMIT
    }

    /// Value order: `self <= other` as rationals.
    pub open spec fn spec_le(self, other: Rat) -> bool {
        frac_le(self.num as int, self.den as int, other.num as int, other.den as int)
    }

    /// Strict value order: `self < other` as rationals.
    pub open spec fn spec_lt(self, other: Rat) -> bool {
        frac_lt(self.num as int, self.den as int, other.num as int, other.den as int)
    }

    /// Value equality: `self` and `other` denote the same rational, even
    /// when their representations differ.
    pub open spec fn ratio_eq(self, other: Rat) -> bool {
        frac_eq(self.num as int, self.den as int, other.num as int, other.den as int)
    }

    /// The rational `n / 1`.
    pub fn from_int(n: i64) -> (r: Rat)
        ensures
            r == (Rat { num: n, den: 1 }),
    {
        Rat { num: n, den: 1 }
    }

    /// The rational `num / den`; rejects a denominator below one.
    pub fn new(num: i64, den: i64) -> (r: Option<Rat>)
        ensures
            den >= 1 ==> r == Some(Rat { num, den }),
            den < 1 ==> r is None,
    {
        if den >= 1 {
            Some(Rat { num, den })
        } else {
            None
        }
    }

    /// Value comparison `self <= other`, total over all representations;
    /// it reads representations with positive denominators as rationals.
    pub fn le(&self, other: &Rat) -> (r: bool)
        ensures
            r == self.spec_le(*other),
    {
        proof {
            lemma_i64_prod_fits(self.num as int, other.den as int);
            lemma_i64_prod_fits(other.num as int, self.den as int);
        }
        (self.num as i128) * (other.den as i128) <= (other.num as i128) * (self.den as i128)
    }

    /// Strict value comparison `self < other`.
    pub fn lt(&self, other: &Rat) -> (r: bool)
        ensures
            r == self.spec_lt(*other),
    {
        proof {
            lemma_i64_prod_fits(self.num as int, other.den as int);
            lemma_i64_prod_fits(other.num as int, self.den as int);
        }
        (self.num as i128) * (other.den as i128) < (other.num as i128) * (self.den as i128)
    }

    /// Value equality test; `true` exactly when both sides denote the same
    /// rational, regardless of representation.
    pub fn eq_value(&self, other: &Rat) -> (r: bool)
        ensures
            r == self.ratio_eq(*other),
    {
        proof {
            lemma_i64_prod_fits(self.num as int, other.den as int);
            lemma_i64_prod_fits(other.num as int, self.den as int);
        }
        (self.num as i128) * (other.den as i128) == (other.num as i128) * (self.den as i128)
    }
}

/// A product of two bounded values is bounded by the product of the bounds,
/// and a product of two positive values stays positive.
pub proof fn lemma_prod_bound(a: int, b: int, ba: int, bb: int) by (nonlinear_arith)
    requires
        -ba <= a <= ba,
        -bb <= b <= bb,
    ensures
        -(ba * bb) <= a * b <= ba * bb,
        a >= 1 && b >= 1 ==> a * b >= 1,
{
}

/// A product of two values drawn from `i64` fits in an `i128`.
proof fn lemma_i64_prod_fits(a: int, b: int)
    requires
        -0x8000_0000_0000_0000 <= a <= 0x7FFF_FFFF_FFFF_FFFF,
        -0x8000_0000_0000_0000 <= b <= 0x7FFF_FFFF_FFFF_FFFF,
    ensures
        -0x8000_0000_0000_0000_0000_0000_0000_0000 <= a * b
            <= 0x4000_0000_0000_0000_0000_0000_0000_0000,
{
    lemma_prod_bound(a, b, 0x8000_0000_0000_0000, 0x8000_0000_0000_0000);
}

/// The value order on rationals is transitive.
pub proof fn lemma_frac_le_trans(pn: int, pd: int, qn: int, qd: int, rn: int, rd: int) by (nonlinear_arith)
    requires
        pd >= 1,
        qd >= 1,
        rd >= 1,
        frac_le(pn, pd, qn, qd),
        frac_le(qn, qd, rn, rd),
    ensures
        frac_le(pn, pd, rn, rd),
{
}

/// A value no greater than a second one is strictly below whatever the
/// second is strictly below.
pub proof fn lemma_frac_le_lt_trans(pn: int, pd: int, qn: int, qd: int, rn: int, rd: int) by (nonlinear_arith)
    requires
        pd >= 1,
        qd >= 1,
        rd >= 1,
        frac_le(pn, pd, qn, qd),
        frac_lt(qn, qd, rn, rd),
    ensures
        frac_lt(pn, pd, rn, rd),
{
}

/// A value strictly below a second one stays strictly below whatever the
/// second is no greater than.
pub proof fn lemma_frac_lt_le_trans(pn: int, pd: int, qn: int, qd: int, rn: int, rd: int) by (nonlinear_arith)
    requires
        pd >= 1,
        qd >= 1,
        rd >= 1,
        frac_lt(pn, pd, qn, qd),
        frac_le(qn, qd, rn, rd),
    ensures
        frac_lt(pn, pd, rn, rd),
{
}

/// Signs of products: positive times positive is positive, nonnegative times
/// nonnegative is nonnegative.
pub proof fn lemma_pos_prod(a: int, b: int) by (nonlinear_arith)
    ensures
        a >= 1 && b >= 1 ==> a * b >= 1,
        a >= 0 && b >= 0 ==> a * b >= 0,
{
}

/// Value equality of rationals is transitive.
pub proof fn lemma_frac_eq_trans(pn: int, pd: int, qn: int, qd: int, rn: int, rd: int) by (nonlinear_arith)
    requires
        pd >= 1,
        qd >= 1,
        rd >= 1,
        frac_eq(pn, pd, qn, qd),
        frac_eq(qn, qd, rn, rd),
    ensures
        frac_eq(pn, pd, rn, rd),
{
}

} // verus!
