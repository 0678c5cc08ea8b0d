use fiers::rat::Rat;
use fiers::util::{min_max, range};

#[test]
fn range_is_absolute_difference() {
    let one = Rat::from_int(1);
    let ten = Rat::from_int(10);
    assert!(range(one, ten).eq_value(&Rat::from_int(9)));
    assert!(range(ten, one).eq_value(&Rat::from_int(9)));
    assert!(range(one, one).eq_value(&Rat::from_int(0)));
    let half = Rat::new(1, 2).unwrap();
    let third = Rat::new(1, 3).unwrap();
    assert!(range(half, third).eq_value(&Rat::new(1, 6).unwrap()));
}

#[test]
fn min_max_orders_its_arguments() {
    let one = Rat::from_int(1);
    let ten = Rat::from_int(10);
    assert_eq!(min_max(one, ten), (one, ten));
    assert_eq!(min_max(ten, one), (one, ten));
    let neg = Rat::from_int(-4);
    assert_eq!(min_max(one, neg), (neg, one));
}
