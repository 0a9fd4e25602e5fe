use rational::{Rational, RationalError};
use std::cmp::Ordering;
use std::hash::{DefaultHasher, Hash, Hasher};

fn r(p: isize, q: isize) -> Rational {
    Rational::new(p, q).unwrap()
}

#[test]
fn ops_it_equates() {
    for equal_pair in equals_set() {
        assert_eq!(equal_pair.0, equal_pair.1, "pair: {equal_pair:?}");
    }
}

#[test]
fn equal_rationals_equal_hash() {
    for equal_pair in equals_set() {
        let hash_1 = default_hash(equal_pair.0);
        let hash_2 = default_hash(equal_pair.1);
        assert_eq!(hash_1, hash_2, "pair: {equal_pair:?}");
    }
}

#[test]
fn ops_it_non_equates() {
    let a = r(15, 1);
    let b = r(3, 1);
    assert_ne!(a, b);

    let a = r(1, 1);
    let b = r(-1, 1);
    assert_ne!(a, b);

    let a = r(1, 14);
    let b = r(14, 1);
    assert_ne!(a, b);
}

#[test]
fn ops_it_multiplies() {
    check_multiplication(0.into(), 5.into(), 0.into());
    check_multiplication(1.into(), 5.into(), 5.into());

    check_multiplication(3.into(), 5.into(), 15.into());
    check_multiplication(3.into(), (-5).into(), (-15).into());

    let a = r(15, 10);
    let b = r(6, 1);
    check_multiplication(a, b, 9.into());

    let a = r(-1, 2);
    let b: Rational = 3.into();
    check_multiplication(a, b, r(-3, 2));
}

#[test]
fn ops_it_divides() {
    let a: Rational = 15.into();
    let b: Rational = 3.into();
    assert_eq!((a / b).unwrap(), 5.into());

    let a: Rational = (-15).into();
    let b: Rational = 3.into();
    assert_eq!((a / b).unwrap(), (-5).into());

    let a: Rational = 1.into();
    let b: Rational = 5.into();
    assert_eq!((a / b).unwrap(), r(1, 5));

    let a: Rational = (-3).into();
    let b: Rational = (-5).into();
    assert_eq!((a / b).unwrap(), r(3, 5));
}

#[test]
fn ops_it_adds() {
    check_addition(1.into(), 2.into(), 3.into());
    check_addition(0.into(), 5.into(), 5.into());
    check_addition((-3).into(), 5.into(), 2.into());
    check_addition(
        "2.3".parse().unwrap(),
        "10.185".parse().unwrap(),
        "12.485".parse().unwrap(),
    );
}

#[test]
fn ops_it_negates() {
    let a: Rational = 5.into();
    assert_eq!((-a).unwrap(), (-5).into());
}

#[test]
fn it_subtracts() {
    let a: Rational = 5.into();
    let b = 0.into();
    check_subtraction(a, b, 5.into());

    let a: Rational = 5.into();
    let b = 3.into();
    check_subtraction(a, b, 2.into());

    let a: Rational = 5.into();
    let b = (-3).into();
    check_subtraction(a, b, 8.into());

    let a: Rational = "0.3".parse().unwrap();
    let b = "0.1".parse().unwrap();
    check_subtraction(a, b, "0.2".parse().unwrap());
}

#[test]
fn it_compares() {
    let a: Rational = "0.5".parse().unwrap();
    let b: Rational = "0.6".parse().unwrap();

    assert!(b > a);
    assert!(b >= a);
    assert!(a < b);
    assert!(a <= b);

    let a: Rational = "0.5".parse().unwrap();
    let b: Rational = "20".parse().unwrap();

    assert!(b > a);
    assert!(b >= a);
    assert!(a < b);
    assert!(a <= b);

    let a: Rational = "0.5".parse().unwrap();
    let b: Rational = "-0.6".parse().unwrap();

    assert!(b < a);
    assert!(b <= a);
    assert!(a > b);
    assert!(a >= b);

    let a: Rational = "-0.5".parse().unwrap();
    let b: Rational = "20".parse().unwrap();

    assert!(b > a);
    assert!(b >= a);
    assert!(a < b);
    assert!(a <= b);

    let a: Rational = "-0.5".parse().unwrap();
    let b: Rational = "-0.6".parse().unwrap();

    assert!(b < a);
    assert!(b <= a);
    assert!(a > b);
    assert!(a >= b);

    let a: Rational = "-0.5".parse().unwrap();
    let b: Rational = "-20".parse().unwrap();

    assert!(b < a);
    assert!(b <= a);
    assert!(a > b);
    assert!(a >= b);

    let a: Rational = 5.into();
    let b: Rational = 6.into();

    assert!(a < b);
    assert!(a <= b);
    assert!(b > a);
    assert!(b >= a);

    let a = r(5, -1);
    let b = r(6, -1);

    assert!(a > b);
    assert!(a >= b);
    assert!(b < a);
    assert!(b <= a);

    let a = r(-5, 1);
    let b = r(6, -1);

    assert!(a > b);
    assert!(a >= b);
    assert!(b < a);
    assert!(b <= a);

    let a = r(5, -1);
    let b = r(-6, 1);

    assert!(a > b);
    assert!(a >= b);
    assert!(b < a);
    assert!(b <= a);

    let a = r(-5, 1);
    let b = r(-6, 1);

    assert!(a > b);
    assert!(a >= b);
    assert!(b < a);
    assert!(b <= a);
}

#[test]
fn it_compares_equals() {
    let a = r(5, 1);
    let b = r(5, 1);

    assert!(a >= b);
    assert!(b >= a);
    assert!(a <= b);
    assert!(b <= a);

    let a = r(-5, 1);
    let b = r(5, -1);

    assert!(a >= b);
    assert!(b >= a);
    assert!(a <= b);
    assert!(b <= a);

    let a = r(-5, -1);
    let b = r(5, 1);

    assert!(a >= b);
    assert!(b >= a);
    assert!(a <= b);
    assert!(b <= a);

    let a = r(5, 2);
    let b = r(5, 2);

    assert!(a >= b);
    assert!(b >= a);
    assert!(a <= b);
    assert!(b <= a);

    let a = r(-5, 2);
    let b = r(5, -2);

    assert!(a >= b);
    assert!(b >= a);
    assert!(a <= b);
    assert!(b <= a);

    let a = r(-5, -2);
    let b = r(5, 2);

    assert!(a >= b);
    assert!(b >= a);
    assert!(a <= b);
    assert!(b <= a);
}

fn check_addition(a: Rational, b: Rational, res: Rational) {
    assert_eq!((a + b).unwrap(), res);
    assert_eq!((b + a).unwrap(), res);
}

fn check_multiplication(a: Rational, b: Rational, res: Rational) {
    assert_eq!((a * b).unwrap(), res);
    assert_eq!((b * a).unwrap(), res);
}

fn check_subtraction(a: Rational, b: Rational, res: Rational) {
    assert_eq!((a - b).unwrap(), res);
    assert_eq!((b - a).unwrap(), (-res).unwrap());
}

fn equals_set() -> Vec<(Rational, Rational)> {
    let mut res = vec![];
    res.push((r(0, 1), r(0, -1343535)));
    res.push((r(15, 5), r(15, 5)));
    res.push((r(15, 5), r(3, 1)));
    res.push((r(15, -5), r(-15, 5)));
    res.push((r(15, 5), r(-3, -1)));
    res
}

fn default_hash<T: Hash>(value: T) -> u64 {
    let mut hasher = DefaultHasher::default();
    value.hash(&mut hasher);
    hasher.finish()
}

fn samples() -> Vec<Rational> {
    let mut all = vec![];
    for p in [-7isize, -2, -1, 0, 1, 3, 10] {
        for q in [-6isize, -1, 1, 2, 9] {
            all.push(r(p, q));
        }
    }
    all.push(Rational::new_unchecked(4, -8).unwrap());
    all.push(r(isize::MAX, 1));
    all.push(r(1, isize::MIN));
    all
}

#[test]
fn division_by_zero_is_an_error() {
    let a: Rational = 1.into();
    assert_eq!(a / 0.into(), Err(RationalError::DivisionByZero));
    assert_eq!(a / r(0, -17), Err(RationalError::DivisionByZero));
    assert_eq!(r(0, 3) / r(0, 5), Err(RationalError::DivisionByZero));
    assert_eq!(RationalError::DivisionByZero.message(), "Can't divide by zero");
}

#[test]
fn results_are_in_lowest_terms() {
    let s = (r(1, 6) + r(1, 3)).unwrap();
    assert_eq!((s.numerator(), s.denominator()), (1, 2));
    let d = (r(1, 6) - r(1, 2)).unwrap();
    assert_eq!((d.numerator(), d.denominator()), (-1, 3));
    let m = (r(2, 3) * r(3, -4)).unwrap();
    assert_eq!((m.numerator(), m.denominator()), (1, -2));
    let q = (r(2, 3) / r(-4, 9)).unwrap();
    assert_eq!((q.numerator(), q.denominator()), (3, -2));
    let n = (-Rational::new_unchecked(2, 4).unwrap()).unwrap();
    assert_eq!((n.numerator(), n.denominator()), (-2, 4));
}

#[test]
fn large_operands_do_not_overflow_on_the_way() {
    let big = r(isize::MAX, 2);
    assert_eq!((big - big).unwrap(), 0.into());
    assert_eq!((big / big).unwrap(), 1.into());
    assert_eq!((big * r(2, isize::MAX)).unwrap(), 1.into());
    let least = Rational::new_unchecked(isize::MIN, isize::MIN).unwrap();
    let sum = (least + least).unwrap();
    assert_eq!((sum.numerator(), sum.denominator()), (2, 1));
    assert!(r(isize::MAX, isize::MAX - 1) < r(isize::MAX - 1, isize::MAX - 2));
    assert_eq!(r(isize::MIN, 3), r(isize::MIN, 3));
}

#[test]
fn results_that_do_not_fit_are_overflows() {
    let big = r(isize::MAX, 1);
    assert_eq!(big + 1.into(), Err(RationalError::Overflow));
    assert_eq!(big * big, Err(RationalError::Overflow));
    assert_eq!(r(1, isize::MAX) / 2.into(), Err(RationalError::Overflow));
    assert_eq!(-r(isize::MIN, 1), Err(RationalError::Overflow));
    assert_eq!(r(1, isize::MAX) + r(-1, isize::MAX), Err(RationalError::Overflow));
}

#[test]
fn equality_is_an_equivalence() {
    let all = samples();
    for a in &all {
        assert!(a == a);
        for b in &all {
            assert_eq!(a == b, b == a);
            for c in &all {
                if a == b && b == c {
                    assert!(a == c);
                }
            }
        }
    }
}

#[test]
fn order_is_total_and_agrees_with_equality() {
    let all = samples();
    for a in &all {
        for b in &all {
            let held = [a < b, a == b, a > b].iter().filter(|x| **x).count();
            assert_eq!(held, 1, "{a:?} {b:?}");
            assert_eq!(a.cmp(b), a.partial_cmp(b).unwrap());
            assert_eq!(a.cmp(b) == Ordering::Equal, a == b);
            assert_eq!(a.cmp(b), b.cmp(a).reverse());
            for c in &all {
                if a < b && b < c {
                    assert!(a < c);
                }
                if a == b {
                    assert_eq!(a.cmp(c), b.cmp(c));
                }
            }
        }
    }
}

#[test]
fn arithmetic_identities_hold() {
    let all = samples();
    let one = r(1, 1);
    for a in &all {
        for b in &all {
            let (a, b) = (*a, *b);
            assert_eq!(a + b, b + a);
            assert_eq!(a * b, b * a);
            if let (Ok(left), Ok(back)) = (a - b, b - a) {
                if let Ok(right) = -back {
                    assert_eq!(left, right);
                }
            }
            if b != 0.into() {
                if let (Ok(left), Ok(scaled)) = (a / b, a * one) {
                    assert_eq!(Ok(left), scaled / b);
                }
            }
        }
        if let Ok(opposite) = -*a {
            if let Ok(sum) = *a + opposite {
                assert_eq!(sum, 0.into());
            }
        }
    }
}

#[test]
fn equal_values_hash_alike() {
    let all = samples();
    for a in &all {
        for b in &all {
            if a == b {
                assert_eq!(default_hash(*a), default_hash(*b));
                assert_eq!(a.canonical(), b.canonical());
            } else {
                assert_ne!(a.canonical(), b.canonical());
            }
        }
    }
    assert_eq!(default_hash(r(1, -3)), default_hash(r(-1, 3)));
    assert_ne!(default_hash(r(1, 3)), default_hash(r(-1, 3)));
}

/// The value, or a panic with the message of the error.
fn expect_value<T>(result: Result<T, RationalError>) -> T {
    result.unwrap_or_else(|e| panic!("{}", e.message()))
}

#[should_panic(expected = "Can't divide by zero")]
#[test]
fn ops_doesnt_divide_by_zero() {
    let a: Rational = 1.into();
    let b: Rational = 0.into();
    let _res = expect_value(a / b);
}
