use fiers::fuzzy::membership::{FuzzyMembershipFn, MembershipFn, Triangular, TriangularError};
use fiers::fuzzy::norm::{FuzzyNorm, Maximum, Minimum};
use fiers::rat::Rat;

fn tri123() -> Triangular {
    Triangular::new(Rat::from_int(1), Rat::from_int(2), Rat::from_int(3)).unwrap()
}

#[test]
fn triangular_at_vertices() {
    let t = tri123();
    assert!(t.eval(&Rat::from_int(1)).eq_value(&Rat::from_int(0)));
    assert!(t.eval(&Rat::from_int(2)).eq_value(&Rat::from_int(1)));
    assert!(t.eval(&Rat::from_int(3)).eq_value(&Rat::from_int(0)));
}

#[test]
fn triangular_between_vertices() {
    let t = tri123();
    let half = Rat::new(1, 2).unwrap();
    assert!(t.eval(&Rat::new(3, 2).unwrap()).eq_value(&half));
    assert!(t.eval(&Rat::new(5, 2).unwrap()).eq_value(&half));
    assert!(t.eval(&Rat::from_int(0)).eq_value(&Rat::from_int(0)));
}

#[test]
fn triangular_outside_support() {
    let t = tri123();
    assert!(t.eval(&Rat::from_int(-5)).eq_value(&Rat::from_int(0)));
    assert!(t.eval(&Rat::from_int(4)).eq_value(&Rat::from_int(0)));
    assert!(t.eval(&Rat::new(100, 3).unwrap()).eq_value(&Rat::from_int(0)));
}

#[test]
fn triangular_dispatch_through_handle() {
    let mf = MembershipFn::Triangular(tri123());
    assert!(mf.eval(&Rat::from_int(2)).eq_value(&Rat::from_int(1)));
    assert!(mf.eval(&Rat::new(3, 2).unwrap()).eq_value(&Rat::new(1, 2).unwrap()));
}

#[test]
fn triangular_rejects_unordered_vertices() {
    let one = Rat::from_int(1);
    let two = Rat::from_int(2);
    let three = Rat::from_int(3);
    assert_eq!(
        Triangular::new(one, three, two).unwrap_err(),
        TriangularError::NotIncreasing,
    );
    assert_eq!(
        Triangular::new(one, one, three).unwrap_err(),
        TriangularError::NotIncreasing,
    );
}

#[test]
fn triangular_rejects_oversized_vertices() {
    let big = Rat::from_int(2000000);
    assert_eq!(
        Triangular::new(Rat::from_int(1), Rat::from_int(2), big).unwrap_err(),
        TriangularError::OutOfBounds,
    );
}

#[test]
fn rat_constructors() {
    assert!(Rat::new(3, 0).is_none());
    assert!(Rat::new(3, -2).is_none());
    let q = Rat::new(3, 2).unwrap();
    assert_eq!(q.num, 3);
    assert_eq!(q.den, 2);
    assert!(Rat::new(2, 4).unwrap().eq_value(&Rat::new(1, 2).unwrap()));
    assert!(!Rat::new(2, 4).unwrap().eq_value(&Rat::new(2, 3).unwrap()));
}

#[test]
fn minimum_norm_laws_on_samples() {
    let a = Rat::new(3, 10).unwrap();
    let b = Rat::new(7, 10).unwrap();
    let c = Rat::new(1, 2).unwrap();
    assert!(Minimum::calculate(a, b).eq_value(&a));
    assert!(Minimum::calculate(a, b).eq_value(&Minimum::calculate(b, a)));
    assert!(
        Minimum::calculate(Minimum::calculate(a, b), c)
            .eq_value(&Minimum::calculate(a, Minimum::calculate(b, c)))
    );
    assert!(Minimum::calculate(a, a).eq_value(&a));
    assert!(Minimum::calculate(a, Rat::from_int(1)).eq_value(&a));
    assert!(Minimum::calculate(a, Rat::from_int(0)).eq_value(&Rat::from_int(0)));
}

#[test]
fn maximum_norm_laws_on_samples() {
    let a = Rat::new(3, 10).unwrap();
    let b = Rat::new(7, 10).unwrap();
    let c = Rat::new(1, 2).unwrap();
    assert!(Maximum::calculate(a, b).eq_value(&b));
    assert!(Maximum::calculate(a, b).eq_value(&Maximum::calculate(b, a)));
    assert!(
        Maximum::calculate(Maximum::calculate(a, b), c)
            .eq_value(&Maximum::calculate(a, Maximum::calculate(b, c)))
    );
    assert!(Maximum::calculate(a, a).eq_value(&a));
    assert!(Maximum::calculate(a, Rat::from_int(0)).eq_value(&a));
    assert!(Maximum::calculate(a, Rat::from_int(1)).eq_value(&Rat::from_int(1)));
}

#[test]
fn norms_on_equal_values_with_different_representations() {
    let half_a = Rat::new(1, 2).unwrap();
    let half_b = Rat::new(2, 4).unwrap();
    assert!(Minimum::calculate(half_a, half_b).eq_value(&half_a));
    assert!(Maximum::calculate(half_a, half_b).eq_value(&half_a));
}
