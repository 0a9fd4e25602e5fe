use rational::{Rational, RationalError};

fn words(result: Result<Rational, RationalError>) -> Result<Rational, &'static str> {
    result.map_err(|e| e.message())
}

#[test]
fn it_parses_string() {
    let a: Rational = "0.(3)".parse().unwrap();
    let b = Rational::new(1, 3).unwrap();
    let c: Rational = "0.(333)".parse().unwrap();
    assert_eq!(a, b);
    assert_eq!(a, c);
}

#[test]
fn it_parses_negative_string() {
    let a: Rational = "-0.(3)".parse().unwrap();
    let b = Rational::new(-1, 3).unwrap();
    assert_eq!(a, b);

    let a: Rational = "-0.(33)".parse().unwrap();
    let b = Rational::new(-1, 3).unwrap();
    assert_eq!(a, b);
}

#[test]
fn it_parses_all_kinds_of_strings() {
    let a: Rational = "-0.0(3)".parse().unwrap();
    let b = Rational::new(-1, 30).unwrap();
    assert_eq!(a, b);

    let a: Rational = "3.(571428)".parse().unwrap();
    let b = Rational::new(25, 7).unwrap();
    assert_eq!(a, b);

    let a: Rational = "-3.(571428)".parse().unwrap();
    let b = Rational::new(-25, 7).unwrap();
    assert_eq!(a, b);

    let a: Rational = "0.0(0)".parse().unwrap();
    let b = Rational::new(0, 1).unwrap();
    assert_eq!(a, b);

    let a: Rational = "-0.0(0)".parse().unwrap();
    let b = Rational::new(0, 1).unwrap();
    assert_eq!(a, b);

    let a: Rational = ".(3)".parse().unwrap();
    let b = Rational::new(1, 3).unwrap();
    assert_eq!(a, b);

    let a: Rational = "-.(3)".parse().unwrap();
    let b = Rational::new(-1, 3).unwrap();
    assert_eq!(a, b);

    let a: Rational = "0.0(410256)".parse().unwrap();
    let b = Rational::new(8, 195).unwrap();
    assert_eq!(a, b);
}

#[test]
fn doesnt_parse_empty_repeating() {
    let a: Result<Rational, _> = "1.34()".parse();
    assert_eq!(words(a), Err("Error parsing string"));
}

#[test]
fn doesnt_parse_digits_after_repeating() {
    let a: Result<Rational, _> = "1.34(3)12".parse();
    assert_eq!(words(a), Err("Error parsing string"));
}

#[test]
fn doesnt_parse_anything_after_repeating() {
    let a: Result<Rational, _> = "1.34(3)--3".parse();
    assert_eq!(words(a), Err("Error parsing string"));
}

#[test]
fn doesnt_parse_incorrect_repeating_part() {
    let a: Result<Rational, _> = "1.34(3.2)".parse();
    assert_eq!(words(a), Err("Error parsing string"));
}

#[test]
fn doesnt_parse_all_kinds_of_incorrect_strings() {
    // The point is optional: a repeating block may follow the integral
    // digits directly, and then stands in the first place behind the point.
    let a: Result<Rational, _> = "0(3)".parse();
    assert_eq!(a, Rational::new(1, 3));

    let a: Result<Rational, _> = "0(3).5".parse();
    assert_eq!(words(a), Err("Error parsing string"));

    let a: Result<Rational, _> = "0.(3".parse();
    assert_eq!(words(a), Err("Error parsing string"));

    let a: Result<Rational, _> = "0.3)".parse();
    assert_eq!(words(a), Err("Error parsing string"));
}

#[test]
fn doesnt_parse_no_digits_number() {
    let a: Result<Rational, _> = ".()".parse();
    assert_eq!(words(a), Err("Error parsing string"));
}

#[test]
fn repeating_block_needs_no_point() {
    assert_eq!(Rational::parse("(3)"), Rational::new(1, 3));
    assert_eq!(Rational::parse("-(6)"), Rational::new(-2, 3));
    assert_eq!(Rational::parse("12(3)"), Rational::new(37, 3));
    assert_eq!(Rational::parse("1(3"), Err(RationalError::Parse));
    assert_eq!(Rational::parse("1()"), Err(RationalError::Parse));
}

#[test]
fn equal_expansions_have_equal_values() {
    let third = Rational::new(1, 3).unwrap();
    for text in ["0.(3)", "0.3(3)", "0.33(3)", "0.(33)", "0.(333333)", ".3(33)"] {
        assert_eq!(Rational::parse(text), Ok(third), "text: {text}");
    }
    let sixth = Rational::new(1, 6).unwrap();
    for text in ["0.1(6)", "0.16(6)", "0.1(66)", "0.16(66)"] {
        assert_eq!(Rational::parse(text), Ok(sixth), "text: {text}");
    }
    assert_eq!(Rational::parse("0.(9)"), Ok(Rational::new(1, 1).unwrap()));
    assert_eq!(Rational::parse("0.4(9)"), Rational::parse("0.5"));
}
