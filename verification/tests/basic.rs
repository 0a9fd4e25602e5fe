use rational::{Rational, RationalError};

#[test]
fn basic_it_works() {
    let _result = Rational::new(15, 3).unwrap();
}

#[test]
fn basic_can_construct_zero() {
    let _res = Rational::new(0, 1).unwrap();
    let _res = Rational::new(0, -1).unwrap();
    let _res = Rational::new(0, 500).unwrap();
}

#[test]
fn new_unchecked_works() {
    let _res = Rational::new_unchecked(10, 3).unwrap();
}

#[test]
fn new_reduced_works() {
    let _res = Rational::new(10, 3).unwrap();
}

#[test]
fn tests_it_reduces() {
    let result = Rational::new(1000, 1).unwrap();
    assert_eq!(result.numerator().abs(), 1000);
    assert_eq!(result.denominator().abs(), 1);

    let result = Rational::new(1000, 2).unwrap();
    assert_eq!(result.numerator().abs(), 500);
    assert_eq!(result.denominator().abs(), 1);

    let result = Rational::new(15, 3).unwrap();
    assert_eq!(result.numerator().abs(), 5);
    assert_eq!(result.denominator().abs(), 1);

    let result = Rational::new(15, 6).unwrap();
    assert_eq!(result.numerator().abs(), 5);
    assert_eq!(result.denominator().abs(), 2);

    let result = Rational::new(-15, 3).unwrap();
    assert_eq!(result.numerator().abs(), 5);
    assert_eq!(result.denominator().abs(), 1);

    let result = Rational::new(15, -6).unwrap();
    assert_eq!(result.numerator().abs(), 5);
    assert_eq!(result.denominator().abs(), 2);
}

#[test]
fn basic_it_reduces() {
    let result = Rational::new(1000, 1).unwrap();
    assert_eq!(result.numerator().abs(), 1000);
    assert_eq!(result.denominator().abs(), 1);

    let result = Rational::new(1000, 2).unwrap();
    assert_eq!(result.numerator().abs(), 500);
    assert_eq!(result.denominator().abs(), 1);

    let result = Rational::new(15, 3).unwrap();
    assert_eq!(result.numerator().abs(), 5);
    assert_eq!(result.denominator().abs(), 1);

    let result = Rational::new(15, 6).unwrap();
    assert_eq!(result.numerator().abs(), 5);
    assert_eq!(result.denominator().abs(), 2);

    let result = Rational::new(-15, 3).unwrap();
    assert_eq!(result.numerator().abs(), 5);
    assert_eq!(result.denominator().abs(), 1);

    let result = Rational::new(15, -6).unwrap();
    assert_eq!(result.numerator().abs(), 5);
    assert_eq!(result.denominator().abs(), 2);
}

#[test]
fn zero_denominator_is_invalid() {
    assert_eq!(Rational::new(1, 0), Err(RationalError::InvalidDenominator));
    assert_eq!(Rational::new(0, 0), Err(RationalError::InvalidDenominator));
    assert_eq!(Rational::new_unchecked(10, 0), Err(RationalError::InvalidDenominator));
    assert_eq!(RationalError::InvalidDenominator.message(), "Denominator can't be zero!");
}

#[test]
fn new_unchecked_keeps_the_fields() {
    let a = Rational::new_unchecked(10, -4).unwrap();
    assert_eq!(a.numerator(), 10);
    assert_eq!(a.denominator(), -4);
    assert_eq!(a, Rational::new(-5, 2).unwrap());
}

#[test]
fn new_keeps_the_sign_on_each_field() {
    let a = Rational::new(15, -6).unwrap();
    assert_eq!(a.numerator(), 5);
    assert_eq!(a.denominator(), -2);
    let b = Rational::new(-15, -6).unwrap();
    assert_eq!(b.numerator(), -5);
    assert_eq!(b.denominator(), -2);
}

#[test]
fn zero_keeps_its_denominator() {
    let z = Rational::new(0, -500).unwrap();
    assert_eq!(z.numerator(), 0);
    assert_eq!(z.denominator(), -500);
}

#[test]
fn reduce_brings_to_lowest_terms_in_place() {
    let mut a = Rational::new_unchecked(-12, 18).unwrap();
    a.reduce();
    assert_eq!(a.numerator(), -2);
    assert_eq!(a.denominator(), 3);
    let mut z = Rational::new_unchecked(0, 18).unwrap();
    z.reduce();
    assert_eq!(z.denominator(), 18);
}

#[test]
fn extreme_fields_are_reduced() {
    let a = Rational::new(isize::MIN, isize::MIN).unwrap();
    assert_eq!(a.numerator(), -1);
    assert_eq!(a.denominator(), -1);
    let b = Rational::new(isize::MIN, 2).unwrap();
    assert_eq!(b.numerator(), isize::MIN / 2);
    assert_eq!(b.denominator(), 1);
    let c = Rational::new(isize::MAX, isize::MIN).unwrap();
    assert_eq!(c.numerator(), isize::MAX);
    assert_eq!(c.denominator(), isize::MIN);
}

#[test]
fn reduction_cancels_a_common_factor() {
    for k in [1isize, -1, 2, -3, 7, 1000] {
        assert_eq!(Rational::new(6, -4).unwrap(), Rational::new(6 * k, -4 * k).unwrap());
    }
}

#[test]
fn signum_is_the_sign_of_the_value() {
    assert_eq!(Rational::new(3, 4).unwrap().signum(), 1);
    assert_eq!(Rational::new(-3, -4).unwrap().signum(), 1);
    assert_eq!(Rational::new(-3, 4).unwrap().signum(), -1);
    assert_eq!(Rational::new(3, -4).unwrap().signum(), -1);
    assert_eq!(Rational::new(0, -4).unwrap().signum(), 0);
}

/// The value, or a panic with the message of the error.
fn expect_value<T>(result: Result<T, RationalError>) -> T {
    result.unwrap_or_else(|e| panic!("{}", e.message()))
}

#[should_panic(expected = "Denominator can't be zero!")]
#[test]
fn basic_cant_make_denominator_zero() {
    let _result = expect_value(Rational::new(1, 0));
}

#[should_panic(expected = "Denominator can't be zero!")]
#[test]
fn new_reduced_does_not_work_when_denominator_is_zero() {
    let _res = expect_value(Rational::new(10, 0));
}

#[should_panic(expected = "Denominator can't be zero!")]
#[test]
fn new_unchecked_does_not_work_when_denominator_is_zero() {
    let _res = expect_value(Rational::new_unchecked(10, 0));
}
