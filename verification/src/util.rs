//! Utility functions over exact rationals.

use vstd::prelude::*;
use crate::rat::Rat;

verus! {

/// Bounds on a product of two components that lie within
/// [`crate::rat::MAG_LIMIT`].
proof fn lemma_mag_prod(a: int, b: int) by (nonlinear_arith)
    requires
        -1048576 <= a <= 1048576,
        -1048576 <= b <= 1048576,
    ensures
        -0x100_0000_0000 <= a * b <= 0x100_0000_0000,
        a >= 1 && b >= 1 ==> a * b >= 1,
{
}

/// Absolute difference `|a - b|` between two rationals.
///
/// The result is returned over the product of the two denominators:
/// `|a.num * b.den - b.num * a.den| / (a.den * b.den)`.
pub fn range(a: Rat, b: Rat) -> (r: Rat)
    requires
        a.small(),
        b.small(),
    ensures
        r.valid(),
        r.num >= 0,
        r.den as int == a.den as int * b.den as int,
        (a.num as int * b.den as int >= b.num as int * a.den as int) ==> r.num as int == a.num
            as int * b.den as int - b.num as int * a.den as int,
        (a.num as int * b.den as int) < (b.num as int * a.den as int) ==> r.num as int == b.num
            as int * a.den as int - a.num as int * b.den as int,
{
    proof {
        lemma_mag_prod(a.num as int, b.den as int);
        lemma_mag_prod(b.num as int, a.den as int);
        lemma_mag_prod(a.den as int, b.den as int);
    }
    let cross_a: i128 = (a.num as i128) * (b.den as i128);
    let cross_b: i128 = (b.num as i128) * (a.den as i128);
    let num: i128 = if cross_a >= cross_b {
        cross_a - cross_b
    } else {
        cross_b - cross_a
    };
    Rat { num: num as i64, den: a.den * b.den }
}

/// Orders two rationals into a `(smaller, larger)` pair; when the two denote
/// the same value the second argument comes first.
pub fn min_max(a: Rat, b: Rat) -> (r: (Rat, Rat))
    ensures
        b.spec_le(a) ==> r == (b, a),
        !b.spec_le(a) ==> r == (a, b),
        r.0.spec_le(r.1),
{
    if b.le(&a) {
        (b, a)
    } else {
        (a, b)
    }
}

} // verus!
