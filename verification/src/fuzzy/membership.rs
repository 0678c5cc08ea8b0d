//! Fuzzy membership functions.

use vstd::prelude::*;
use crate::rat::{
    Rat, frac_eq, frac_le, rat_one, rat_zero, lemma_frac_eq_trans, lemma_frac_le_trans,
    lemma_frac_le_lt_trans, lemma_frac_lt_le_trans, lemma_pos_prod, lemma_prod_bound, MAG_LIMIT,
};

verus! {

/// General representation of a membership function: a map from a point of
/// the universe of discourse to a degree of membership.
pub trait FuzzyMembershipFn {
    /// The condition under which the function may be evaluated: the
    /// implementation's own well-formedness together with whatever bound it
    /// puts on the point.
    spec fn eval_req(&self, x: Rat) -> bool;

    /// Relates a point `x` to the degree returned for it. The relation pins
    /// the degree down to one rational value; only its representation is
    /// left open.
    spec fn membership(&self, x: Rat, r: Rat) -> bool;

    /// Returns the degree of membership of a value `x`.
    fn eval(&self, x: &Rat) -> (r: Rat)
        requires
            self.eval_req(*x),
        ensures
            r.valid(),
            self.membership(*x, r),
    ;
}

/// Triangular membership function formed by three vertices.
///
/// For vertices `a < b < c` the degree of `x` is
/// `max(0, min((x - a) / (b - a), (c - x) / (c - b)))`: zero outside
/// `[a, c]`, rising linearly to one at `b`, and falling linearly back.
#[derive(Clone, Copy, Debug)]
pub struct Triangular(pub Rat, pub Rat, pub Rat);

/// Why a triangular membership function could not be built.
#[derive(Clone, Copy, Debug, PartialEq, Eq, Structural)]
pub enum TriangularError {
    /// A vertex component lies outside the supported magnitude.
    OutOfBounds,
    /// The vertices are not strictly increasing.
    NotIncreasing,
}

impl Triangular {
    /// The vertices are strictly increasing and their components small
    /// enough that evaluation stays within machine integers.
    pub open spec fn wf(self) -> bool {
        &&& self.0.small()
        &&& self.1.small()
        &&& self.2.small()
        &&& self.0.spec_lt(self.1)
        &&& self.1.spec_lt(self.2)
    }

    /// Numerator of the rising ratio `(x - a) / (b - a)`, both sides taken
    /// over the common denominator [`Triangular::left_den`].
    pub open spec fn left_num(self, x: Rat) -> int {
        (x.num as int * self.0.den as int - self.0.num as int * x.den as int) * self.1.den as int
    }

    /// Denominator of the rising ratio `(x - a) / (b - a)`; positive for
    /// well-formed vertices and valid `x`.
    pub open spec fn left_den(self, x: Rat) -> int {
        x.den as int * (self.1.num as int * self.0.den as int - self.0.num as int * self.1.den
            as int)
    }

    /// Numerator of the falling ratio `(c - x) / (c - b)`, over the common
    /// denominator [`Triangular::right_den`].
    pub open spec fn right_num(self, x: Rat) -> int {
        (self.2.num as int * x.den as int - x.num as int * self.2.den as int) * self.1.den as int
    }

    /// Denominator of the falling ratio `(c - x) / (c - b)`; positive for
    /// well-formed vertices and valid `x`.
    pub open spec fn right_den(self, x: Rat) -> int {
        x.den as int * (self.2.num as int * self.1.den as int - self.1.num as int * self.2.den
            as int)
    }

    /// Builds a triangular membership function from its three vertices,
    /// validating them: each component must lie within [`MAG_LIMIT`] and the
    /// vertices must be strictly increasing.
    pub fn new(a: Rat, b: Rat, c: Rat) -> (r: Result<Triangular, TriangularError>)
        ensures
            !(a.small() && b.small() && c.small()) ==> r == Err::<Triangular, TriangularError>(
                TriangularError::OutOfBounds,
            ),
            a.small() && b.small() && c.small() && !(a.spec_lt(b) && b.spec_lt(c)) ==> r == Err::<
                Triangular,
                TriangularError,
            >(TriangularError::NotIncreasing),
            a.small() && b.small() && c.small() && a.spec_lt(b) && b.spec_lt(c) ==> r == Ok::<
                Triangular,
                TriangularError,
            >(Triangular(a, b, c)),
            r matches Ok(t) ==> t.wf(),
    {
        if !(is_small(&a) && is_small(&b) && is_small(&c)) {
            Err(TriangularError::OutOfBounds)
        } else if a.lt(&b) && b.lt(&c) {
            Ok(Triangular(a, b, c))
        } else {
            Err(TriangularError::NotIncreasing)
        }
    }
}

/// Whether both components of `v` lie within [`MAG_LIMIT`].
fn is_small(v: &Rat) -> (r: bool)
    ensures
        r == v.small(),
{
    -MAG_LIMIT <= v.num && v.num <= MAG_LIMIT && 1 <= v.den && v.den <= MAG_LIMIT
}

impl FuzzyMembershipFn for Triangular {
    /// The vertices are well formed and the point is bounded.
    open spec fn eval_req(&self, x: Rat) -> bool {
        self.wf() && x.small()
    }

    /// `r` is `max(0, min((x - a) / (b - a), (c - x) / (c - b)))`, the two
    /// ratios written over the common denominators of `left_den` and
    /// `right_den`.
    open spec fn membership(&self, x: Rat, r: Rat) -> bool {
        if self.left_num(x) <= 0 || self.right_num(x) <= 0 {
            frac_eq(r.num as int, r.den as int, 0, 1)
        } else if frac_le(self.left_num(x), self.left_den(x), self.right_num(x), self.right_den(x)) {
            frac_eq(r.num as int, r.den as int, self.left_num(x), self.left_den(x))
        } else {
            frac_eq(r.num as int, r.den as int, self.right_num(x), self.right_den(x))
        }
    }

    fn eval(&self, x: &Rat) -> (r: Rat) {
        let a = self.0;
        let b = self.1;
        let c = self.2;
        proof {
            lemma_prod_bound(x.num as int, a.den as int, 1048576, 1048576);
            lemma_prod_bound(a.num as int, x.den as int, 1048576, 1048576);
            lemma_prod_bound(b.num as int, a.den as int, 1048576, 1048576);
            lemma_prod_bound(a.num as int, b.den as int, 1048576, 1048576);
            lemma_prod_bound(c.num as int, x.den as int, 1048576, 1048576);
            lemma_prod_bound(x.num as int, c.den as int, 1048576, 1048576);
            lemma_prod_bound(c.num as int, b.den as int, 1048576, 1048576);
            lemma_prod_bound(b.num as int, c.den as int, 1048576, 1048576);
        }
        let m1: i128 = (x.num as i128) * (a.den as i128) - (a.num as i128) * (x.den as i128);
        let dba: i128 = (b.num as i128) * (a.den as i128) - (a.num as i128) * (b.den as i128);
        let m2: i128 = (c.num as i128) * (x.den as i128) - (x.num as i128) * (c.den as i128);
        let dcb: i128 = (c.num as i128) * (b.den as i128) - (b.num as i128) * (c.den as i128);
        proof {
            lemma_prod_bound(m1 as int, b.den as int, 0x200_0000_0000, 1048576);
            lemma_prod_bound(x.den as int, dba as int, 1048576, 0x200_0000_0000);
            lemma_prod_bound(m2 as int, b.den as int, 0x200_0000_0000, 1048576);
            lemma_prod_bound(x.den as int, dcb as int, 1048576, 0x200_0000_0000);
        }
        let ln: i128 = m1 * (b.den as i128);
        let ld: i128 = (x.den as i128) * dba;
        let rn: i128 = m2 * (b.den as i128);
        let rd: i128 = (x.den as i128) * dcb;
        if ln <= 0 || rn <= 0 {
            Rat { num: 0, den: 1 }
        } else {
            proof {
                lemma_prod_bound(
                    ln as int,
                    rd as int,
                    0x2000_0000_0000_0000,
                    0x2000_0000_0000_0000,
                );
                lemma_prod_bound(
                    rn as int,
                    ld as int,
                    0x2000_0000_0000_0000,
                    0x2000_0000_0000_0000,
                );
                lemma_pos_prod(x.den as int, dba as int);
                lemma_pos_prod(x.den as int, dcb as int);
            }
            if ln * rd <= rn * ld {
                Rat { num: ln as i64, den: ld as i64 }
            } else {
                Rat { num: rn as i64, den: rd as i64 }
            }
        }
    }
}

/// A membership function held by value: the owned polymorphic handle a
/// [`crate::blueprint::Term`] stores. Dispatches to the variant's own
/// implementation.
#[derive(Clone, Copy, Debug)]
pub enum MembershipFn {
    /// A triangular membership function.
    Triangular(Triangular),
}

impl FuzzyMembershipFn for MembershipFn {
    /// The held function's own evaluation condition.
    open spec fn eval_req(&self, x: Rat) -> bool {
        match self {
            MembershipFn::Triangular(t) => t.eval_req(x),
        }
    }

    /// The held function's own membership relation.
    open spec fn membership(&self, x: Rat, r: Rat) -> bool {
        match self {
            MembershipFn::Triangular(t) => t.membership(x, r),
        }
    }

    fn eval(&self, x: &Rat) -> (r: Rat) {
        match self {
            MembershipFn::Triangular(t) => t.eval(x),
        }
    }
}

/// At the left vertex the triangular degree is zero.
pub proof fn lemma_triangular_at_left(t: Triangular, r: Rat)
    requires
        t.wf(),
        t.membership(t.0, r),
    ensures
        r.ratio_eq(rat_zero()),
{
    assert(t.left_num(t.0) == (t.0.num as int * t.0.den as int - t.0.num as int * t.0.den as int)
        * t.1.den as int);
}

/// At the peak vertex the triangular degree is one.
pub proof fn lemma_triangular_at_peak(t: Triangular, r: Rat)
    requires
        t.wf(),
        r.valid(),
        t.membership(t.1, r),
    ensures
        r.ratio_eq(rat_one()),
{
    let p: int = t.1.num as int * t.0.den as int - t.0.num as int * t.1.den as int;
    let q: int = t.2.num as int * t.1.den as int - t.1.num as int * t.2.den as int;
    let bd: int = t.1.den as int;
    assert(t.left_num(t.1) == p * bd);
    assert(t.left_den(t.1) == bd * p);
    assert(t.right_num(t.1) == q * bd);
    assert(t.right_den(t.1) == bd * q);
    lemma_pos_prod(p, bd);
    lemma_pos_prod(q, bd);
    lemma_pos_prod(bd, p);
    assert((p * bd) * (bd * q) == (q * bd) * (bd * p)) by (nonlinear_arith);
    assert(frac_le(t.left_num(t.1), t.left_den(t.1), t.right_num(t.1), t.right_den(t.1)));
    assert(r.num as int * (bd * p) == (p * bd) * r.den as int);
    assert(r.num == r.den) by (nonlinear_arith)
        requires
            r.num as int * (bd * p) == (p * bd) * r.den as int,
            p >= 1,
            bd >= 1,
    ;
}

/// At the right vertex the triangular degree is zero.
pub proof fn lemma_triangular_at_right(t: Triangular, r: Rat)
    requires
        t.wf(),
        t.membership(t.2, r),
    ensures
        r.ratio_eq(rat_zero()),
{
    assert(t.right_num(t.2) == (t.2.num as int * t.2.den as int - t.2.num as int * t.2.den as int)
        * t.1.den as int);
}

/// The triangular degree is never negative.
pub proof fn lemma_triangular_nonnegative(t: Triangular, x: Rat, r: Rat)
    requires
        t.wf(),
        x.valid(),
        r.valid(),
        t.membership(x, r),
    ensures
        rat_zero().spec_le(r),
{
    let dba: int = t.1.num as int * t.0.den as int - t.0.num as int * t.1.den as int;
    let dcb: int = t.2.num as int * t.1.den as int - t.1.num as int * t.2.den as int;
    lemma_pos_prod(x.den as int, dba);
    lemma_pos_prod(x.den as int, dcb);
    if t.left_num(x) <= 0 || t.right_num(x) <= 0 {
        assert(r.num == 0);
    } else if frac_le(t.left_num(x), t.left_den(x), t.right_num(x), t.right_den(x)) {
        assert(r.num >= 1) by (nonlinear_arith)
            requires
                r.num as int * (x.den as int * dba) == t.left_num(x) * r.den as int,
                t.left_num(x) >= 1,
                x.den as int * dba >= 1,
                r.den >= 1,
        ;
    } else {
        assert(r.num >= 1) by (nonlinear_arith)
            requires
                r.num as int * (x.den as int * dcb) == t.right_num(x) * r.den as int,
                t.right_num(x) >= 1,
                x.den as int * dcb >= 1,
                r.den >= 1,
        ;
    }
}

/// Between the left vertex and the peak the triangular degree is exactly the
/// rising ratio `(x - a) / (b - a)`: the function is linear there.
pub proof fn lemma_triangular_rising(t: Triangular, x: Rat, r: Rat)
    requires
        t.wf(),
        x.valid(),
        t.0.spec_le(x),
        x.spec_le(t.1),
        t.membership(x, r),
    ensures
        frac_eq(r.num as int, r.den as int, t.left_num(x), t.left_den(x)),
{
    let xn: int = x.num as int;
    let xd: int = x.den as int;
    let an: int = t.0.num as int;
    let ad: int = t.0.den as int;
    let bn: int = t.1.num as int;
    let bd: int = t.1.den as int;
    let cn: int = t.2.num as int;
    let cd: int = t.2.den as int;
    let mx: int = xn * ad - an * xd;
    let wx: int = cn * xd - xn * cd;
    let dba: int = bn * ad - an * bd;
    let dcb: int = cn * bd - bn * cd;
    lemma_frac_le_lt_trans(xn, xd, bn, bd, cn, cd);
    lemma_pos_prod(wx, bd);
    lemma_pos_prod(xd, dba);
    lemma_pos_prod(xd, dcb);
    lemma_pos_prod(mx, bd);
    if t.left_num(x) <= 0 {
        assert(r.num == 0);
        assert(t.left_num(x) == 0);
    } else {
        assert(xd * dba - mx * bd == ad * (bn * xd - xn * bd)) by (nonlinear_arith)
            requires
                mx == xn * ad - an * xd,
                dba == bn * ad - an * bd,
        ;
        assert(wx * bd - xd * dcb == cd * (bn * xd - xn * bd)) by (nonlinear_arith)
            requires
                wx == cn * xd - xn * cd,
                dcb == cn * bd - bn * cd,
        ;
        lemma_pos_prod(ad, bn * xd - xn * bd);
        lemma_pos_prod(cd, bn * xd - xn * bd);
        assert(frac_le(t.left_num(x), t.left_den(x), 1, 1));
        assert(frac_le(1, 1, t.right_num(x), t.right_den(x)));
        lemma_frac_le_trans(
            t.left_num(x),
            t.left_den(x),
            1,
            1,
            t.right_num(x),
            t.right_den(x),
        );
    }
}

/// Between the peak and the right vertex the triangular degree is exactly
/// the falling ratio `(c - x) / (c - b)`: the function is linear there.
pub proof fn lemma_triangular_falling(t: Triangular, x: Rat, r: Rat)
    requires
        t.wf(),
        x.valid(),
        r.valid(),
        t.1.spec_le(x),
        x.spec_le(t.2),
        t.membership(x, r),
    ensures
        frac_eq(r.num as int, r.den as int, t.right_num(x), t.right_den(x)),
{
    let xn: int = x.num as int;
    let xd: int = x.den as int;
    let an: int = t.0.num as int;
    let ad: int = t.0.den as int;
    let bn: int = t.1.num as int;
    let bd: int = t.1.den as int;
    let cn: int = t.2.num as int;
    let cd: int = t.2.den as int;
    let mx: int = xn * ad - an * xd;
    let wx: int = cn * xd - xn * cd;
    let dba: int = bn * ad - an * bd;
    let dcb: int = cn * bd - bn * cd;
    lemma_frac_lt_le_trans(an, ad, bn, bd, xn, xd);
    lemma_pos_prod(mx, bd);
    lemma_pos_prod(xd, dba);
    lemma_pos_prod(xd, dcb);
    lemma_pos_prod(wx, bd);
    if t.right_num(x) <= 0 {
        assert(r.num == 0);
        assert(t.right_num(x) == 0);
    } else {
        assert(mx * bd - xd * dba == ad * (xn * bd - bn * xd)) by (nonlinear_arith)
            requires
                mx == xn * ad - an * xd,
                dba == bn * ad - an * bd,
        ;
        assert(xd * dcb - wx * bd == cd * (xn * bd - bn * xd)) by (nonlinear_arith)
            requires
                wx == cn * xd - xn * cd,
                dcb == cn * bd - bn * cd,
        ;
        lemma_pos_prod(ad, xn * bd - bn * xd);
        lemma_pos_prod(cd, xn * bd - bn * xd);
        assert(frac_le(t.right_num(x), t.right_den(x), 1, 1));
        assert(frac_le(1, 1, t.left_num(x), t.left_den(x)));
        lemma_frac_le_trans(
            t.right_num(x),
            t.right_den(x),
            1,
            1,
            t.left_num(x),
            t.left_den(x),
        );
        if frac_le(t.left_num(x), t.left_den(x), t.right_num(x), t.right_den(x)) {
            assert(frac_eq(t.left_num(x), t.left_den(x), t.right_num(x), t.right_den(x)));
            lemma_frac_eq_trans(
                r.num as int,
                r.den as int,
                t.left_num(x),
                t.left_den(x),
                t.right_num(x),
                t.right_den(x),
            );
        }
    }
}

} // verus!
