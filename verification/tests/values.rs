use exposure_bracketing::rational::ExposureValue;

fn ev(n: i32, d: i32) -> ExposureValue {
    ExposureValue::new(n, d).unwrap()
}

#[test]
fn new_reduces_to_lowest_terms() {
    let v = ev(10, 20);
    assert_eq!((v.numer(), v.denom()), (1, 2));
    let v = ev(-10, 10);
    assert_eq!((v.numer(), v.denom()), (-1, 1));
    let v = ev(6, 4);
    assert_eq!((v.numer(), v.denom()), (3, 2));
}

#[test]
fn new_makes_the_denominator_positive() {
    let v = ev(10, -20);
    assert_eq!((v.numer(), v.denom()), (-1, 2));
    let v = ev(-3, -9);
    assert_eq!((v.numer(), v.denom()), (1, 3));
}

#[test]
fn zero_has_denominator_one() {
    let v = ev(0, 10);
    assert_eq!((v.numer(), v.denom()), (0, 1));
    assert!(v.is_zero());
    let v = ev(0, -2147483648);
    assert_eq!((v.numer(), v.denom()), (0, 1));
    assert!(!ev(1, 10).is_zero());
}

#[test]
fn new_refuses_a_zero_denominator() {
    assert!(ExposureValue::new(1, 0).is_none());
    assert!(ExposureValue::new(0, 0).is_none());
}

#[test]
fn new_refuses_what_32_bits_cannot_hold() {
    assert!(ExposureValue::new(i32::MIN, -1).is_none());
    assert!(ExposureValue::new(i32::MIN, -3).is_none());
    assert!(ExposureValue::new(1, i32::MIN).is_none());
    assert!(ExposureValue::new(-5, i32::MIN).is_none());
}

#[test]
fn new_accepts_the_extremes_that_fit() {
    let v = ev(i32::MIN, 1);
    assert_eq!((v.numer(), v.denom()), (i32::MIN, 1));
    let v = ev(i32::MIN, 3);
    assert_eq!((v.numer(), v.denom()), (i32::MIN, 3));
    let v = ev(i32::MIN, -2);
    assert_eq!((v.numer(), v.denom()), (1073741824, 1));
    let v = ev(i32::MIN, i32::MIN);
    assert_eq!((v.numer(), v.denom()), (1, 1));
    let v = ev(2, i32::MIN);
    assert_eq!((v.numer(), v.denom()), (-1, 1073741824));
    let v = ev(i32::MAX, i32::MAX);
    assert_eq!((v.numer(), v.denom()), (1, 1));
    let v = ev(i32::MAX, -1);
    assert_eq!((v.numer(), v.denom()), (-i32::MAX, 1));
}

#[test]
fn from_integer_is_over_one() {
    let v = ExposureValue::from_integer(-7);
    assert_eq!((v.numer(), v.denom()), (-7, 1));
    assert_eq!(v, ev(-14, 2));
}

#[test]
fn equal_numbers_are_equal_values() {
    assert_eq!(ev(1, 2), ev(2, 4));
    assert_eq!(ev(0, 10), ev(0, 3));
    assert_eq!(ev(-10, 10), ev(1, -1));
    assert_ne!(ev(1, 2), ev(1, 3));
    assert_ne!(ev(1, 2), ev(-1, 2));
    assert_ne!(ev(i32::MAX, 1), ev(i32::MAX - 1, 1));
    assert_ne!(ev(i32::MIN, 1), ev(1, i32::MAX));
}

#[test]
fn differs_by_is_exact_subtraction() {
    assert!(ev(15, 10).differs_by(&ev(5, 10), &ev(10, 10)));
    assert!(ev(-5, 10).differs_by(&ev(5, 10), &ev(-1, 1)));
    assert!(ev(1, 3).differs_by(&ev(1, 7), &ev(4, 21)));
    assert!(!ev(1, 3).differs_by(&ev(1, 7), &ev(4, 20)));
    assert!(ev(5, 10).differs_by(&ev(5, 10), &ev(0, 7)));
    assert!(!ev(3, 10).differs_by(&ev(1, 10), &ev(1, 10)));
}

#[test]
fn differs_by_does_not_overflow() {
    let big = ev(i32::MAX, 1);
    let small = ev(i32::MIN, 1);
    assert!(!big.differs_by(&small, &ev(-1, 1)));
    assert!(!big.differs_by(&small, &ev(i32::MAX, 1)));
    let a = ev(1, i32::MAX);
    let b = ev(1, i32::MAX - 1);
    assert!(!a.differs_by(&b, &ev(0, 1)));
    assert!(a.differs_by(&a, &ev(0, 1)));
    assert!(ev(i32::MIN, 1).differs_by(&ev(-1, 1), &ev(-i32::MAX, 1)));
}
