//! Declarative API to build inference engines.

use vstd::prelude::*;
use crate::fuzzy::membership::MembershipFn;
use crate::fuzzy::norm::{FuzzyNorm, Maximum, Minimum};
use crate::rat::{Rat, frac_eq, lemma_frac_eq_trans, lemma_pos_prod, lemma_prod_bound};
use crate::util::min_max;

verus! {

/// Public representation of an inference engine: the norms chosen at
/// construction together with the named input and output variables and the
/// inference rules. A blueprint owns everything beneath it; the fields are
/// populated directly by builder code.
#[derive(Debug)]
pub struct Blueprint<T: FuzzyNorm, S: FuzzyNorm, I: FuzzyNorm> {
    /// Optional engine name.
    pub name: Option<String>,
    /// Conjunction t-norm.
    pub conjunction: T,
    /// Disjunction s-norm.
    pub disjunction: S,
    /// Implication t-norm.
    pub implication: I,
    /// Set of fuzzy inputs.
    pub inputs: Vec<FuzzyInput>,
    /// Set of fuzzy outputs.
    pub outputs: Vec<FuzzyOutput>,
    /// Inference rules.
    pub rule_base: Vec<FuzzyRule>,
}

/// Blueprint of the common Mamdani inference engine: minimum for conjunction
/// and implication, maximum for disjunction.
pub type MaxMin = Blueprint<Minimum, Maximum, Minimum>;

impl MaxMin {
    /// Generates a default instance of a `MaxMin` blueprint: the canonical
    /// max-min norm composition with no inputs, outputs or rules yet.
    pub fn default() -> (r: MaxMin)
        ensures
            r.name is None,
            r.conjunction == Minimum,
            r.disjunction == Maximum,
            r.implication == Minimum,
            r.inputs@.len() == 0,
            r.outputs@.len() == 0,
            r.rule_base@.len() == 0,
    {
        Blueprint {
            name: None,
            conjunction: Minimum,
            disjunction: Maximum,
            implication: Minimum,
            inputs: Vec::new(),
            outputs: Vec::new(),
            rule_base: Vec::new(),
        }
    }
}

/// Input variable of an inference engine.
#[derive(Debug)]
pub struct FuzzyInput {
    /// Unique input variable name.
    pub name: String,
    /// Universe of discourse.
    pub range: DiscreteRange,
    /// Set of linguistic values.
    pub terms: Vec<Term>,
}

/// Output variable of an inference engine.
#[derive(Debug)]
pub struct FuzzyOutput {
    /// Unique output variable name.
    pub name: String,
    /// Universe of discourse.
    pub range: DiscreteRange,
    /// Set of linguistic values.
    pub terms: Vec<Term>,
}

/// Inference rule representation; its structure is not defined yet.
#[derive(Debug)]
pub struct FuzzyRule {}

/// Fuzzy linguistic term: a named fuzzy set within a variable's universe.
#[derive(Debug)]
pub struct Term {
    /// Unique name.
    pub name: String,
    /// Membership function.
    pub mf: MembershipFn,
}

/// Why a discrete range could not be built.
#[derive(Clone, Copy, Debug, PartialEq, Eq, Structural)]
pub enum RangeError {
    /// Fewer than two sample points were requested, so no step is defined.
    TooFewPoints,
}

/// Producer of a finite sequence of evenly spaced rationals over a closed
/// interval: `discrete_points` samples from `start` to `end` inclusive,
/// consecutive samples `step` apart. Each call of [`DiscreteRange::next`]
/// yields one sample and advances the cursor; after the last sample the
/// range reports exhaustion.
#[derive(Clone, Copy, Debug)]
pub struct DiscreteRange {
    discrete_points: usize,
    point: usize,
    start: Rat,
    end: Rat,
    step: Rat,
}

impl DiscreteRange {
    /// Number of samples the range produces in total.
    pub closed spec fn spec_points(self) -> int {
        self.discrete_points as int
    }

    /// Index of the next sample to be produced.
    pub closed spec fn spec_cursor(self) -> int {
        self.point as int
    }

    /// Lower endpoint of the interval.
    pub closed spec fn spec_start(self) -> Rat {
        self.start
    }

    /// Upper endpoint of the interval.
    pub closed spec fn spec_end(self) -> Rat {
        self.end
    }

    /// Distance between consecutive samples:
    /// `(end - start) / (discrete_points - 1)`.
    pub closed spec fn spec_step(self) -> Rat {
        self.step
    }

    /// Well-formedness: the endpoints are ordered and bounded, the point
    /// count lies between two and [`crate::rat::MAG_LIMIT`], the cursor has
    /// not run past the end, and the stored step is exactly
    /// `(end - start) / (discrete_points - 1)`.
    pub open spec fn wf(self) -> bool {
        &&& self.spec_start().small()
        &&& self.spec_end().small()
        &&& self.spec_start().spec_le(self.spec_end())
        &&& 2 <= self.spec_points() <= 1048576
        &&& 0 <= self.spec_cursor() <= self.spec_points()
        &&& self.spec_step().num as int == self.spec_end().num as int * self.spec_start().den
            as int - self.spec_start().num as int * self.spec_end().den as int
        &&& self.spec_step().den as int == self.spec_start().den as int * self.spec_end().den
            as int * (self.spec_points() - 1)
        &&& self.spec_step().valid()
    }

    /// Common denominator of every sample the range produces.
    pub open spec fn sample_den(self) -> int {
        self.spec_start().den as int * self.spec_end().den as int * (self.spec_points() - 1)
    }

    /// Numerator of the sample at index `i` over [`DiscreteRange::sample_den`]:
    /// the linear interpolation `start + i * step` written as
    /// `(start * (points - 1 - i) + end * i) / (points - 1)`.
    pub open spec fn sample_num(self, i: int) -> int {
        self.spec_start().num as int * self.spec_end().den as int * (self.spec_points() - 1 - i)
            + self.spec_end().num as int * self.spec_start().den as int * i
    }

    /// `r` denotes the sample at index `i`.
    pub open spec fn is_sample(self, i: int, r: Rat) -> bool {
        frac_eq(r.num as int, r.den as int, self.sample_num(i), self.sample_den())
    }

    /// Creates a new `DiscreteRange` over the interval between `a` and `b`,
    /// whichever order they come in, with `pts` evenly spaced samples.
    /// Fails when fewer than two samples are requested, since no step is
    /// defined then.
    pub fn from(a: Rat, b: Rat, pts: usize) -> (r: Result<DiscreteRange, RangeError>)
        requires
            a.small(),
            b.small(),
            pts <= 1048576,
        ensures
            pts < 2 ==> r == Err::<DiscreteRange, RangeError>(RangeError::TooFewPoints),
            pts >= 2 ==> (r matches Ok(d) && d.wf() && d.spec_points() == pts
                && d.spec_cursor() == 0 && (b.spec_le(a) ==> d.spec_start() == b
                && d.spec_end() == a) && (!b.spec_le(a) ==> d.spec_start() == a
                && d.spec_end() == b)),
    {
        if pts < 2 {
            return Err(RangeError::TooFewPoints);
        }
        let (start, end) = min_max(a, b);
        let k = pts - 1;
        proof {
            lemma_prod_bound(end.num as int, start.den as int, 1048576, 1048576);
            lemma_prod_bound(start.num as int, end.den as int, 1048576, 1048576);
            lemma_prod_bound(start.den as int, end.den as int, 1048576, 1048576);
            lemma_prod_bound(
                start.den as int * end.den as int,
                k as int,
                0x100_0000_0000,
                1048576,
            );
            lemma_pos_prod(start.den as int, end.den as int);
            lemma_pos_prod(start.den as int * end.den as int, k as int);
        }
        let snum: i128 = (end.num as i128) * (start.den as i128) - (start.num as i128) * (end.den
            as i128);
        let sden: i128 = (start.den as i128) * (end.den as i128) * (k as i128);
        Ok(
            DiscreteRange {
                discrete_points: pts,
                point: 0,
                start,
                end,
                step: Rat { num: snum as i64, den: sden as i64 },
            },
        )
    }

    /// Yields the next sample and advances the cursor, or reports
    /// exhaustion once all samples have been produced. The configuration
    /// never changes; only the cursor moves.
    pub fn next(&mut self) -> (r: Option<Rat>)
        requires
            old(self).wf(),
        ensures
            final(self).wf(),
            final(self).spec_start() == old(self).spec_start(),
            final(self).spec_end() == old(self).spec_end(),
            final(self).spec_points() == old(self).spec_points(),
            final(self).spec_step() == old(self).spec_step(),
            old(self).spec_cursor() >= old(self).spec_points() ==> r is None
                && final(self).spec_cursor() == old(self).spec_cursor(),
            old(self).spec_cursor() < old(self).spec_points() ==> (r matches Some(v) && v.valid()
                && old(self).is_sample(old(self).spec_cursor(), v) && final(self).spec_cursor()
                == old(self).spec_cursor() + 1),
    {
        if self.point >= self.discrete_points {
            None
        } else {
            let i = self.point;
            self.point = i + 1;
            let k = self.discrete_points - 1;
            proof {
                lemma_prod_bound(self.start.num as int, self.end.den as int, 1048576, 1048576);
                lemma_prod_bound(self.end.num as int, self.start.den as int, 1048576, 1048576);
                lemma_prod_bound(
                    self.start.num as int * self.end.den as int,
                    k - i as int,
                    0x100_0000_0000,
                    1048576,
                );
                lemma_prod_bound(
                    self.end.num as int * self.start.den as int,
                    i as int,
                    0x100_0000_0000,
                    1048576,
                );
            }
            let num: i128 = (self.start.num as i128) * (self.end.den as i128) * ((k - i) as i128)
                + (self.end.num as i128) * (self.start.den as i128) * (i as i128);
            Some(Rat { num: num as i64, den: self.step.den })
        }
    }
}

/// The first sample of a well-formed range denotes its lower endpoint.
pub proof fn lemma_sample_first(d: DiscreteRange, r: Rat)
    requires
        d.wf(),
        r.valid(),
        d.is_sample(0, r),
    ensures
        r.ratio_eq(d.spec_start()),
{
    let sn: int = d.spec_start().num as int;
    let sd: int = d.spec_start().den as int;
    let ed: int = d.spec_end().den as int;
    let k: int = d.spec_points() - 1;
    assert(r.num as int * (sd * ed * k) == (sn * ed * k) * r.den as int);
    assert(r.num as int * sd == sn * r.den as int) by (nonlinear_arith)
        requires
            r.num as int * (sd * ed * k) == (sn * ed * k) * r.den as int,
            ed >= 1,
            k >= 1,
            sd >= 1,
    ;
}

/// The last sample of a well-formed range denotes its upper endpoint.
pub proof fn lemma_sample_last(d: DiscreteRange, r: Rat)
    requires
        d.wf(),
        r.valid(),
        d.is_sample(d.spec_points() - 1, r),
    ensures
        r.ratio_eq(d.spec_end()),
{
    let sd: int = d.spec_start().den as int;
    let en: int = d.spec_end().num as int;
    let ed: int = d.spec_end().den as int;
    let k: int = d.spec_points() - 1;
    assert(r.num as int * (sd * ed * k) == (en * sd * k) * r.den as int);
    assert(r.num as int * ed == en * r.den as int) by (nonlinear_arith)
        requires
            r.num as int * (sd * ed * k) == (en * sd * k) * r.den as int,
            ed >= 1,
            k >= 1,
            sd >= 1,
    ;
}

/// Consecutive samples of a well-formed range differ by exactly the range's
/// step: the difference `s - r` between the samples at `i + 1` and `i`
/// denotes the same rational as `step`.
pub proof fn lemma_sample_step(d: DiscreteRange, i: int, r: Rat, s: Rat)
    requires
        d.wf(),
        r.valid(),
        s.valid(),
        0 <= i,
        i + 1 < d.spec_points(),
        d.is_sample(i, r),
        d.is_sample(i + 1, s),
    ensures
        frac_eq(
            s.num as int * r.den as int - r.num as int * s.den as int,
            r.den as int * s.den as int,
            d.spec_step().num as int,
            d.spec_step().den as int,
        ),
{
    let sn: int = d.spec_start().num as int;
    let sd: int = d.spec_start().den as int;
    let en: int = d.spec_end().num as int;
    let ed: int = d.spec_end().den as int;
    let k: int = d.spec_points() - 1;
    let ni: int = d.sample_num(i);
    let ni1: int = d.sample_num(i + 1);
    let dd: int = d.sample_den();
    assert(ni1 - ni == en * sd - sn * ed) by (nonlinear_arith)
        requires
            ni == sn * ed * (k - i) + en * sd * i,
            ni1 == sn * ed * (k - (i + 1)) + en * sd * (i + 1),
    ;
    assert((s.num as int * r.den as int - r.num as int * s.den as int) * dd == (ni1 - ni) * (r.den
        as int * s.den as int)) by (nonlinear_arith)
        requires
            r.num as int * dd == ni * r.den as int,
            s.num as int * dd == ni1 * s.den as int,
    ;
}

/// Two well-formed ranges over the same interval values and the same point
/// count produce the same samples, value for value: argument order at
/// construction does not matter.
#[verifier::rlimit(100)]
pub proof fn lemma_sample_congruence(d1: DiscreteRange, d2: DiscreteRange, i: int, r1: Rat, r2: Rat)
    requires
        d1.wf(),
        d2.wf(),
        r1.valid(),
        r2.valid(),
        d1.spec_points() == d2.spec_points(),
        d1.spec_start().ratio_eq(d2.spec_start()),
        d1.spec_end().ratio_eq(d2.spec_end()),
        d1.is_sample(i, r1),
        d2.is_sample(i, r2),
    ensures
        r1.ratio_eq(r2),
{
    let sn1: int = d1.spec_start().num as int;
    let sd1: int = d1.spec_start().den as int;
    let en1: int = d1.spec_end().num as int;
    let ed1: int = d1.spec_end().den as int;
    let sn2: int = d2.spec_start().num as int;
    let sd2: int = d2.spec_start().den as int;
    let en2: int = d2.spec_end().num as int;
    let ed2: int = d2.spec_end().den as int;
    let n1: int = d1.sample_num(i);
    let n2: int = d2.sample_num(i);
    let dd1: int = d1.sample_den();
    let dd2: int = d2.sample_den();
    let k: int = d1.spec_points() - 1;
    let u: int = k - i;
    lemma_pos_prod(sd1, ed1);
    lemma_pos_prod(sd1 * ed1, k);
    lemma_pos_prod(sd2, ed2);
    lemma_pos_prod(sd2 * ed2, k);
    assert(sn1 * ed1 * u * (sd2 * ed2 * k) == (sn1 * sd2) * ((ed1 * ed2) * (u * k)))
        by (nonlinear_arith);
    assert(sn2 * ed2 * u * (sd1 * ed1 * k) == (sn2 * sd1) * ((ed1 * ed2) * (u * k)))
        by (nonlinear_arith);
    assert(en1 * sd1 * i * (sd2 * ed2 * k) == (en1 * ed2) * ((sd1 * sd2) * (i * k)))
        by (nonlinear_arith);
    assert(en2 * sd2 * i * (sd1 * ed1 * k) == (en2 * ed1) * ((sd1 * sd2) * (i * k)))
        by (nonlinear_arith);
    assert((sn1 * ed1 * u + en1 * sd1 * i) * (sd2 * ed2 * k) == sn1 * ed1 * u * (sd2 * ed2 * k)
        + en1 * sd1 * i * (sd2 * ed2 * k)) by (nonlinear_arith);
    assert((sn2 * ed2 * u + en2 * sd2 * i) * (sd1 * ed1 * k) == sn2 * ed2 * u * (sd1 * ed1 * k)
        + en2 * sd2 * i * (sd1 * ed1 * k)) by (nonlinear_arith);
    assert(n1 * dd2 == n2 * dd1);
    lemma_frac_eq_trans(r1.num as int, r1.den as int, n1, dd1, n2, dd2);
    lemma_frac_eq_trans(r1.num as int, r1.den as int, n2, dd2, r2.num as int, r2.den as int);
}

} // verus!
