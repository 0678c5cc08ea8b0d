use fiers::blueprint::{DiscreteRange, MaxMin, RangeError, Term};
use fiers::fuzzy::membership::{MembershipFn, Triangular};
use fiers::rat::Rat;
use fiers::util::range;

fn collect(mut r: DiscreteRange) -> Vec<Rat> {
    let mut values: Vec<Rat> = Vec::new();
    while let Some(v) = r.next() {
        values.push(v);
    }
    values
}

#[test]
fn blueprint_test() {
    let (start, end) = (Rat::from_int(1), Rat::from_int(10));
    let total_points: usize = 20;

    let iter = DiscreteRange::from(start, end, total_points).unwrap();

    assert_eq!(collect(iter.clone()).len(), total_points);

    let numbered: Vec<(usize, Rat)> = collect(iter).into_iter().enumerate().collect();
    println!("Range: {:?}", numbered);
}

#[test]
fn debug_mf() {
    let name = String::from("test");
    let tri = Triangular::new(Rat::from_int(1), Rat::from_int(2), Rat::from_int(3)).unwrap();
    let term = Term {
        name: name.clone(),
        mf: MembershipFn::Triangular(tri),
    };

    assert_eq!(name, term.name);

    println!("{:?}", term);
}

#[test]
fn lib_test() {
    println!("{:?}", MaxMin::default());
}

#[test]
fn default_blueprint_is_empty() {
    let bp = MaxMin::default();
    assert!(bp.name.is_none());
    assert_eq!(bp.inputs.len(), 0);
    assert_eq!(bp.outputs.len(), 0);
    assert_eq!(bp.rule_base.len(), 0);
}

#[test]
fn twenty_points_from_one_to_ten() {
    let values = collect(
        DiscreteRange::from(Rat::from_int(1), Rat::from_int(10), 20).unwrap(),
    );
    assert_eq!(values.len(), 20);
    assert!(values[0].eq_value(&Rat::from_int(1)));
    assert!(values[19].eq_value(&Rat::from_int(10)));
    let step = Rat::new(9, 19).unwrap();
    for i in 0..19 {
        assert!(range(values[i], values[i + 1]).eq_value(&step));
    }
    // spot checks: 1 + i * 9/19
    assert!(values[1].eq_value(&Rat::new(28, 19).unwrap()));
    assert!(values[10].eq_value(&Rat::new(109, 19).unwrap()));
}

#[test]
fn argument_order_is_normalized() {
    let forward = collect(DiscreteRange::from(Rat::from_int(1), Rat::from_int(10), 20).unwrap());
    let backward = collect(DiscreteRange::from(Rat::from_int(10), Rat::from_int(1), 20).unwrap());
    assert_eq!(forward.len(), backward.len());
    for (a, b) in forward.iter().zip(backward.iter()) {
        assert_eq!(a, b);
    }
}

#[test]
fn exhausted_range_stays_exhausted() {
    let mut r = DiscreteRange::from(Rat::from_int(0), Rat::from_int(1), 2).unwrap();
    assert!(r.next().is_some());
    assert!(r.next().is_some());
    assert!(r.next().is_none());
    assert!(r.next().is_none());
}

#[test]
fn fractional_endpoints() {
    // from 1/2 to 5/2 in 5 points: step is 1/2
    let values = collect(
        DiscreteRange::from(Rat::new(1, 2).unwrap(), Rat::new(5, 2).unwrap(), 5).unwrap(),
    );
    assert_eq!(values.len(), 5);
    assert!(values[0].eq_value(&Rat::new(1, 2).unwrap()));
    assert!(values[1].eq_value(&Rat::from_int(1)));
    assert!(values[2].eq_value(&Rat::new(3, 2).unwrap()));
    assert!(values[3].eq_value(&Rat::from_int(2)));
    assert!(values[4].eq_value(&Rat::new(5, 2).unwrap()));
}

#[test]
fn too_few_points_is_rejected() {
    let a = Rat::from_int(1);
    let b = Rat::from_int(10);
    assert_eq!(
        DiscreteRange::from(a, b, 1).unwrap_err(),
        RangeError::TooFewPoints,
    );
    assert_eq!(
        DiscreteRange::from(a, b, 0).unwrap_err(),
        RangeError::TooFewPoints,
    );
}
