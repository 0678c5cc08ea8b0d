//! Interfaces for fuzzy norms and the common implementations.

use vstd::prelude::*;
use crate::rat::{Rat, rat_one, rat_zero, lemma_frac_le_trans};

verus! {

/// A fuzzy norm: a binary operator over membership degrees, used for
/// t-norms (conjunction) and t-conorms, or s-norms (disjunction).
///
/// A norm is a total pure function: it reads any representation with a
/// positive denominator as a rational and does not check that its inputs lie
/// in `[0, 1]`; callers are responsible for supplying valid degrees.
pub trait FuzzyNorm {
    /// The value the norm computes, as a specification-level function.
    spec fn spec_calculate(a: Rat, b: Rat) -> Rat;

    /// Combines two membership degrees.
    fn calculate(a: Rat, b: Rat) -> (r: Rat)
        ensures
            r == Self::spec_calculate(a, b),
    ;
}

/// A representation of the s-norm max.
#[derive(Clone, Copy, Debug)]
pub struct Maximum;

/// A representation of the t-norm min.
#[derive(Clone, Copy, Debug)]
pub struct Minimum;

impl FuzzyNorm for Maximum {
    /// The larger of the two degrees; on a tie the second is returned.
    open spec fn spec_calculate(a: Rat, b: Rat) -> Rat {
        if b.spec_lt(a) {
            a
        } else {
            b
        }
    }

    fn calculate(a: Rat, b: Rat) -> (r: Rat) {
        if b.lt(&a) {
            a
        } else {
            b
        }
    }
}

impl FuzzyNorm for Minimum {
    /// The smaller of the two degrees; on a tie the second is returned.
    open spec fn spec_calculate(a: Rat, b: Rat) -> Rat {
        if a.spec_lt(b) {
            a
        } else {
            b
        }
    }

    fn calculate(a: Rat, b: Rat) -> (r: Rat) {
        if a.lt(&b) {
            a
        } else {
            b
        }
    }
}

/// Instantiates order transitivity for every permutation of three rationals,
/// so that case splits over `min`/`max` selections go through.
proof fn lemma_order_cases(a: Rat, b: Rat, c: Rat)
    requires
        a.valid(),
        b.valid(),
        c.valid(),
    ensures
        a.spec_le(b) && b.spec_le(c) ==> a.spec_le(c),
        a.spec_le(c) && c.spec_le(b) ==> a.spec_le(b),
        b.spec_le(a) && a.spec_le(c) ==> b.spec_le(c),
        b.spec_le(c) && c.spec_le(a) ==> b.spec_le(a),
        c.spec_le(a) && a.spec_le(b) ==> c.spec_le(b),
        c.spec_le(b) && b.spec_le(a) ==> c.spec_le(a),
{
    if a.spec_le(b) && b.spec_le(c) {
        lemma_frac_le_trans(
            a.num as int, a.den as int, b.num as int, b.den as int, c.num as int, c.den as int);
    }
    if a.spec_le(c) && c.spec_le(b) {
        lemma_frac_le_trans(
            a.num as int, a.den as int, c.num as int, c.den as int, b.num as int, b.den as int);
    }
    if b.spec_le(a) && a.spec_le(c) {
        lemma_frac_le_trans(
            b.num as int, b.den as int, a.num as int, a.den as int, c.num as int, c.den as int);
    }
    if b.spec_le(c) && c.spec_le(a) {
        lemma_frac_le_trans(
            b.num as int, b.den as int, c.num as int, c.den as int, a.num as int, a.den as int);
    }
    if c.spec_le(a) && a.spec_le(b) {
        lemma_frac_le_trans(
            c.num as int, c.den as int, a.num as int, a.den as int, b.num as int, b.den as int);
    }
    if c.spec_le(b) && b.spec_le(a) {
        lemma_frac_le_trans(
            c.num as int, c.den as int, b.num as int, b.den as int, a.num as int, a.den as int);
    }
}

/// The minimum norm is commutative: `min(a, b)` and `min(b, a)` denote the
/// same degree.
pub proof fn lemma_minimum_commutative(a: Rat, b: Rat)
    requires
        a.valid(),
        b.valid(),
    ensures
        Minimum::spec_calculate(a, b).ratio_eq(Minimum::spec_calculate(b, a)),
{
}

/// The minimum norm is associative.
pub proof fn lemma_minimum_associative(a: Rat, b: Rat, c: Rat)
    requires
        a.valid(),
        b.valid(),
        c.valid(),
    ensures
        Minimum::spec_calculate(Minimum::spec_calculate(a, b), c) == Minimum::spec_calculate(
            a,
            Minimum::spec_calculate(b, c),
        ),
{
    lemma_order_cases(a, b, c);
}

/// The minimum norm is idempotent: `min(a, a) == a`.
pub proof fn lemma_minimum_idempotent(a: Rat)
    ensures
        Minimum::spec_calculate(a, a) == a,
{
}

/// One is the identity of the minimum norm on degrees in `[0, 1]`.
pub proof fn lemma_minimum_identity(a: Rat)
    requires
        a.valid(),
        rat_zero().spec_le(a),
        a.spec_le(rat_one()),
    ensures
        Minimum::spec_calculate(a, rat_one()).ratio_eq(a),
{
}

/// Zero absorbs under the minimum norm on degrees in `[0, 1]`.
pub proof fn lemma_minimum_absorbing(a: Rat)
    requires
        a.valid(),
        rat_zero().spec_le(a),
        a.spec_le(rat_one()),
    ensures
        Minimum::spec_calculate(a, rat_zero()).ratio_eq(rat_zero()),
{
}

/// The maximum norm is commutative: `max(a, b)` and `max(b, a)` denote the
/// same degree.
pub proof fn lemma_maximum_commutative(a: Rat, b: Rat)
    requires
        a.valid(),
        b.valid(),
    ensures
        Maximum::spec_calculate(a, b).ratio_eq(Maximum::spec_calculate(b, a)),
{
}

/// The maximum norm is associative.
pub proof fn lemma_maximum_associative(a: Rat, b: Rat, c: Rat)
    requires
        a.valid(),
        b.valid(),
        c.valid(),
    ensures
        Maximum::spec_calculate(Maximum::spec_calculate(a, b), c) == Maximum::spec_calculate(
            a,
            Maximum::spec_calculate(b, c),
        ),
{
    lemma_order_cases(a, b, c);
}

/// The maximum norm is idempotent: `max(a, a) == a`.
pub proof fn lemma_maximum_idempotent(a: Rat)
    ensures
        Maximum::spec_calculate(a, a) == a,
{
}

/// Zero is the identity of the maximum norm on degrees in `[0, 1]`.
pub proof fn lemma_maximum_identity(a: Rat)
    requires
        a.valid(),
        rat_zero().spec_le(a),
        a.spec_le(rat_one()),
    ensures
        Maximum::spec_calculate(a, rat_zero()).ratio_eq(a),
{
}

/// One absorbs under the maximum norm on degrees in `[0, 1]`.
pub proof fn lemma_maximum_absorbing(a: Rat)
    requires
        a.valid(),
        rat_zero().spec_le(a),
        a.spec_le(rat_one()),
    ensures
        Maximum::spec_calculate(a, rat_one()).ratio_eq(rat_one()),
{
}

} // verus!
