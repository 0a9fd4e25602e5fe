use rational::{Rational, RationalError};

#[test]
fn conversions_it_converts_from_integer() {
    let a: Rational = 1.into();
    let b = Rational::new(1, 1).unwrap();
    assert_eq!(a, b);

    let a: Rational = 13.into();
    let b = Rational::new(13, 1).unwrap();
    assert_eq!(a, b);

    let a: Rational = 0.into();
    assert_eq!(a, Rational::new(0, 1).unwrap());
}

#[test]
fn conversions_it_converts_from_string_int() {
    let a: Rational = "1".parse().unwrap();
    let b = Rational::new(1, 1).unwrap();
    assert_eq!(a, b);

    let a: Rational = "0".parse().unwrap();
    let b = Rational::new(0, 1).unwrap();
    assert_eq!(a, b);

    let a: Rational = "01".parse().unwrap();
    let b = Rational::new(1, 1).unwrap();
    assert_eq!(a, b);

    let a: Rational = "348763".parse().unwrap();
    let b = Rational::new(348763, 1).unwrap();
    assert_eq!(a, b);
}

#[test]
fn conversions_it_converts_from_string_decimal() {
    let a: Rational = "1.5".parse().unwrap();
    let b = Rational::new(3, 2).unwrap();
    assert_eq!(a, b);

    let a: Rational = "12.5".parse().unwrap();
    let b = Rational::new(125, 10).unwrap();
    assert_eq!(a, b);

    let a: Rational = "0.5".parse().unwrap();
    let b = Rational::new(1, 2).unwrap();
    assert_eq!(a, b);

    let a: Rational = "0.05".parse().unwrap();
    let b = Rational::new(1, 20).unwrap();
    assert_eq!(a, b);

    let a: Rational = ".5".parse().unwrap();
    let b = Rational::new(1, 2).unwrap();
    assert_eq!(a, b);

    let a: Rational = "5.".parse().unwrap();
    let b = Rational::new(5, 1).unwrap();
    assert_eq!(a, b);

    let a: Rational = "0.".parse().unwrap();
    let b = Rational::new(0, 1).unwrap();
    assert_eq!(a, b);
}

#[test]
fn conversions_it_converts_from_string_negative() {
    let a: Rational = "-1".parse().unwrap();
    let b = Rational::new(-1, 1).unwrap();
    assert_eq!(a, b);

    let a: Rational = "-0".parse().unwrap();
    let b = Rational::new(-0, 1).unwrap();
    assert_eq!(a, b);

    let a: Rational = "-01".parse().unwrap();
    let b = Rational::new(-1, 1).unwrap();
    assert_eq!(a, b);

    let a: Rational = "-348763".parse().unwrap();
    let b = Rational::new(-348763, 1).unwrap();
    assert_eq!(a, b);

    let a: Rational = "-1.5".parse().unwrap();
    let b = Rational::new(-3, 2).unwrap();
    assert_eq!(a, b);

    let a: Rational = "-12.5".parse().unwrap();
    let b = Rational::new(-125, 10).unwrap();
    assert_eq!(a, b);

    let a: Rational = "-0.5".parse().unwrap();
    let b = Rational::new(-1, 2).unwrap();
    assert_eq!(a, b);

    let a: Rational = "-0.05".parse().unwrap();
    let b = Rational::new(-1, 20).unwrap();
    assert_eq!(a, b);

    let a: Rational = "-.5".parse().unwrap();
    let b = Rational::new(-1, 2).unwrap();
    assert_eq!(a, b);

    let a: Rational = "-5.".parse().unwrap();
    let b = Rational::new(-5, 1).unwrap();
    assert_eq!(a, b);

    let a: Rational = "-0.".parse().unwrap();
    let b = Rational::new(0, 1).unwrap();
    assert_eq!(a, b);
}

fn text_of(result: Result<Rational, RationalError>) -> Result<Rational, &'static str> {
    result.map_err(|e| e.message())
}

#[test]
fn it_doesnt_convert_from_string_negative_with_space() {
    let a: Result<Rational, _> = "- 1".parse();
    assert_eq!(text_of(a), Err("Error parsing string"));

    let a: Result<Rational, _> = "- 1.5".parse();
    assert_eq!(text_of(a), Err("Error parsing string"));
}

#[test]
fn conversions_cant_parse_empty_string() {
    let result: Result<Rational, _> = "".parse();
    assert_eq!(Err("Error parsing string"), text_of(result));
}

#[test]
fn conversions_cant_parse_incorrect_string_1() {
    let result: Result<Rational, _> = "sdjshdj".parse();
    assert_eq!(Err("Error parsing string"), text_of(result));
}

#[test]
fn conversions_cant_parse_incorrect_string_2() {
    let result: Result<Rational, _> = "1.2.3".parse();
    assert_eq!(Err("Error parsing string"), text_of(result));
}

#[test]
fn conversions_cant_parse_incorrect_string_3() {
    let result: Result<Rational, _> = "123-5.".parse();
    assert_eq!(Err("Error parsing string"), text_of(result));
}

#[test]
fn cant_parse_incorrect_string_4() {
    let result: Result<Rational, _> = "-".parse();
    assert_eq!(Err("Error parsing string"), text_of(result));
}

#[test]
fn doesnt_parse_two_periods() {
    let res: Result<Rational, _> = "1..5".parse();
    assert_eq!(text_of(res), Err("Error parsing string"));
}

#[test]
fn parse_errors_are_of_the_parse_kind() {
    for text in ["", "-", ".", "-.", "1.2.3", "1.34()", "1.34(3)12", "+1", "1 ", " 1", "1e5", "\u{663}"] {
        assert_eq!(Rational::parse(text), Err(RationalError::Parse), "text: {text:?}");
    }
}

#[test]
fn parse_and_from_str_agree() {
    for text in ["1.5", "-0.(3)", "12", ".5", "x", ""] {
        assert_eq!(Rational::parse(text), text.parse::<Rational>());
    }
}

#[test]
fn parse_gives_lowest_terms() {
    let a = Rational::parse("1.5").unwrap();
    assert_eq!((a.numerator(), a.denominator()), (3, 2));
    let b = Rational::parse("-0.1(6)").unwrap();
    assert_eq!((b.numerator(), b.denominator()), (-1, 6));
    let c = Rational::parse("3.(571428)").unwrap();
    assert_eq!((c.numerator(), c.denominator()), (25, 7));
    let d = Rational::parse("0.125").unwrap();
    assert_eq!((d.numerator(), d.denominator()), (1, 8));
}

#[test]
fn parse_reports_what_does_not_fit() {
    assert_eq!(Rational::parse("99999999999999999999999999"), Err(RationalError::Overflow));
    assert_eq!(Rational::parse("0.00000000000000000000000001"), Err(RationalError::Overflow));
    assert_eq!(Rational::parse("0.(00000000000000000001)"), Err(RationalError::Overflow));
    assert_eq!(Rational::parse("99999999999999999999999999x"), Err(RationalError::Parse));
    assert_eq!(RationalError::Overflow.message(), "Value does not fit in the integer type");
}

#[test]
fn parse_reaches_the_ends_of_the_range() {
    let most = isize::MAX.to_string();
    assert_eq!(Rational::parse(&most), Ok(Rational::new(isize::MAX, 1).unwrap()));
    let least = isize::MIN.to_string();
    let a = Rational::parse(&least).unwrap();
    assert_eq!((a.numerator(), a.denominator()), (isize::MIN, 1));
    let beyond = format!("{}", isize::MAX as i128 + 1);
    assert_eq!(Rational::parse(&beyond), Err(RationalError::Overflow));
}

#[test]
fn a_written_value_parses_back() {
    for (p, q) in [(3isize, 2isize), (-7, 4), (1, 8), (25, 1), (0, 1), (-1, 1000)] {
        let a = Rational::new(p, q).unwrap();
        let mut digits = (a.numerator().abs() as i128 * 1000 / a.denominator().abs() as i128).to_string();
        while digits.len() < 4 {
            digits.insert(0, '0');
        }
        let split = digits.len() - 3;
        let sign = if a.signum() < 0 { "-" } else { "" };
        let text = format!("{}{}.{}", sign, &digits[..split], &digits[split..]);
        assert_eq!(Rational::parse(&text), Ok(a), "text: {text}");
    }
}

#[test]
fn zero_keeps_the_product_of_its_denominators() {
    let a = Rational::parse("0.000000000").unwrap();
    assert_eq!((a.numerator(), a.denominator()), (0, 1_000_000_000_000_000_000));
    assert_eq!(a, Rational::from(0));
    assert_eq!(Rational::parse("0.0000000000"), Err(RationalError::Overflow));
    assert_eq!(Rational::parse("1.0000000000"), Ok(Rational::from(1)));
}
