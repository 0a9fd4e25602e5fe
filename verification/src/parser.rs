//! The parser of decimal literals.
//!
//! The text is read once from left to right into its zones, and the zones
//! are then evaluated. Nothing is evaluated before the whole text is known
//! to be a literal.

use crate::decimal::{
    all_digits, digit_run, digit_value, has_at, is_digit, number, parse_result, power_of_ten,
    scan, Literal,
};
use crate::error::RationalError;
use crate::rational::Rational;
use crate::wide::{magnitude_of, Wide};
use std::str::FromStr;
use vstd::prelude::*;

verus! {

/// A stretch of the text: the characters from `start` up to `end`.
#[derive(Clone, Copy, Debug)]
pub struct Zone {
    pub start: usize,
    pub end: usize,
}

impl Zone {
    /// The stretch lies within `s`.
    pub open spec fn within(self, s: Seq<char>) -> bool {
        self.start <= self.end <= s.len()
    }

    /// The characters of the stretch.
    pub open spec fn of(self, s: Seq<char>) -> Seq<char> {
        s.subrange(self.start as int, self.end as int)
    }

    /// The number of characters in the stretch.
    pub fn len(&self) -> (n: usize)
        requires
            self.start <= self.end,
        ensures
            n == self.end - self.start,
    {
        self.end - self.start
    }
}

/// Where the zones of a literal lie in its text.
#[derive(Clone, Copy, Debug)]
pub struct Zones {
    pub negative: bool,
    pub integral: Zone,
    pub fractional: Zone,
    pub repeating: Zone,
}

impl Zones {
    /// The three zones lie within `s` and hold digits only.
    pub open spec fn within(self, s: Seq<char>) -> bool {
        &&& self.integral.within(s)
        &&& self.fractional.within(s)
        &&& self.repeating.within(s)
        &&& all_digits(self.integral.of(s))
        &&& all_digits(self.fractional.of(s))
        &&& all_digits(self.repeating.of(s))
    }

    /// The literal whose zones these are in `s`.
    pub open spec fn literal(self, s: Seq<char>) -> Literal {
        Literal {
            negative: self.negative,
            integral: self.integral.of(s),
            fractional: self.fractional.of(s),
            repeating: self.repeating.of(s),
        }
    }
}

/// A run of digits ends within the text, holds digits only, and is not
/// followed by a digit.
pub proof fn lemma_digit_run(s: Seq<char>, from: int)
    requires
        0 <= from <= s.len(),
    ensures
        from + digit_run(s, from) <= s.len(),
        all_digits(s.subrange(from, from + digit_run(s, from))),
        !(0 <= from + digit_run(s, from) < s.len() && is_digit(s[from + digit_run(s, from)])),
    decreases s.len() - from,
{
    if from < s.len() && is_digit(s[from]) {
        lemma_digit_run(s, from + 1);
        let run = s.subrange(from, from + digit_run(s, from));
        let rest = s.subrange(from + 1, from + 1 + digit_run(s, from + 1));
        assert forall|i: int| 0 <= i < run.len() implies is_digit(#[trigger] run[i]) by {
            if i > 0 {
                assert(run[i] == rest[i - 1]);
            }
        }
    }
}

/// The decimal digit that `c` is, if it is one.
pub fn digit_of(c: char) -> (d: Option<u8>)
    ensures
        d is Some <==> is_digit(c),
        d matches Some(v) ==> v == digit_value(c),
{
    if '0' <= c && c <= '9' {
        Some((c as u32 - '0' as u32) as u8)
    } else {
        None
    }
}

/// Whether the text starts with a minus sign.
pub fn parse_sign(chars: &[char]) -> (negative: bool)
    ensures
        negative == has_at(chars@, 0, '-'),
{
    chars.len() > 0 && chars[0] == '-'
}

/// The end of the longest run of digits that starts at `from`.
pub fn parse_digits(chars: &[char], from: usize) -> (end: usize)
    requires
        from <= chars.len(),
    ensures
        end == from + digit_run(chars@, from as int),
        end <= chars.len(),
        all_digits(chars@.subrange(from as int, end as int)),
{
    let mut end: usize = from;
    while end < chars.len() && digit_of(chars[end]).is_some()
        invariant
            from <= end <= chars.len(),
            digit_run(chars@, from as int) == (end - from) + digit_run(chars@, end as int),
        decreases chars.len() - end,
    {
        end = end + 1;
    }
    proof {
        lemma_digit_run(chars@, from as int);
    }
    end
}

/// The integral digits: the run of digits at `from`, which may be empty.
pub fn parse_integral_part(chars: &[char], from: usize) -> (zone: Zone)
    requires
        from <= chars.len(),
    ensures
        zone.start == from,
        zone.end == from + digit_run(chars@, from as int),
        zone.within(chars@),
        all_digits(zone.of(chars@)),
{
    Zone { start: from, end: parse_digits(chars, from) }
}

/// The fractional digits: if there is a point at `from`, the run of digits
/// behind it, which may be empty. Without a point the zone is empty and
/// starts at `from`.
pub fn parse_fractional_part(chars: &[char], from: usize) -> (zone: Zone)
    requires
        from <= chars.len(),
    ensures
        zone.start == if has_at(chars@, from as int, '.') {
            from + 1
        } else {
            from as int
        },
        zone.end == zone.start + if has_at(chars@, from as int, '.') {
            digit_run(chars@, from + 1)
        } else {
            0
        },
        zone.within(chars@),
        all_digits(zone.of(chars@)),
{
    if from < chars.len() && chars[from] == '.' {
        Zone { start: from + 1, end: parse_digits(chars, from + 1) }
    } else {
        Zone { start: from, end: from }
    }
}

/// The repeating digits: if there is an opening parenthesis at `from`, the
/// run of digits behind it, which must not be empty and must be followed by
/// a closing parenthesis. Returned with the zone is the place behind the
/// block. Without an opening parenthesis the zone is empty and the place is
/// `from`.
pub fn parse_repeating_part(chars: &[char], from: usize) -> (r: Result<(Zone, usize), RationalError>)
    requires
        from <= chars.len(),
    ensures
        match r {
            Ok((zone, next)) => {
                &&& zone.within(chars@)
                &&& all_digits(zone.of(chars@))
                &&& next <= chars.len()
                &&& if has_at(chars@, from as int, '(') {
                    &&& zone.start == from + 1
                    &&& zone.end == zone.start + digit_run(chars@, from + 1)
                    &&& zone.end > zone.start
                    &&& has_at(chars@, zone.end as int, ')')
                    &&& next == zone.end + 1
                } else {
                    zone.start == from && zone.end == from && next == from
                }
            },
            Err(e) => {
                let end = from + 1 + digit_run(chars@, from + 1);
                &&& e == RationalError::Parse
                &&& has_at(chars@, from as int, '(')
                &&& (end == from + 1 || !has_at(chars@, end, ')'))
            },
        },
{
    if from < chars.len() && chars[from] == '(' {
        let start: usize = from + 1;
        let end: usize = parse_digits(chars, start);
        if end == start {
            return Err(RationalError::Parse);
        }
        if end < chars.len() && chars[end] == ')' {
            Ok((Zone { start, end }, end + 1))
        } else {
            Err(RationalError::Parse)
        }
    } else {
        Ok((Zone { start: from, end: from }, from))
    }
}

/// The zones of the text, if it is a literal.
pub fn scan_zones(chars: &[char]) -> (r: Result<Zones, RationalError>)
    ensures
        match r {
            Ok(zones) => zones.within(chars@) && scan(chars@) == Some(zones.literal(chars@)),
            Err(e) => e == RationalError::Parse && scan(chars@) is None,
        },
{
    let negative = parse_sign(chars);
    let first: usize = if negative {
        1
    } else {
        0
    };
    let integral = parse_integral_part(chars, first);
    let fractional = parse_fractional_part(chars, integral.end);
    let (repeating, next) = match parse_repeating_part(chars, fractional.end) {
        Ok(found) => found,
        Err(e) => {
            return Err(e);
        },
    };
    if next != chars.len() {
        return Err(RationalError::Parse);
    }
    if integral.len() + fractional.len() + repeating.len() == 0 {
        return Err(RationalError::Parse);
    }
    Ok(Zones { negative, integral, fractional, repeating })
}

/// The number that `digits` write behind the digits of `start`.
pub open spec fn extend(start: nat, digits: Seq<char>) -> nat {
    start * power_of_ten(digits.len()) + number(digits)
}

/// One more digit multiplies by ten and adds the digit.
pub proof fn lemma_extend_step(start: nat, digits: Seq<char>, c: char)
    ensures
        extend(start, digits.push(c)) == 10 * extend(start, digits) + digit_value(c),
{
    let longer = digits.push(c);
    assert(longer.drop_last() =~= digits);
    assert(longer.last() == c);
    assert(power_of_ten(longer.len()) == 10 * power_of_ten(digits.len()));
    assert(start * (10 * power_of_ten(digits.len())) == 10 * (start * power_of_ten(digits.len())))
        by (nonlinear_arith);
}

/// Digits written behind a number never make it smaller.
pub proof fn lemma_extend_grows(start: nat, digits: Seq<char>, k: int)
    requires
        0 <= k <= digits.len(),
    ensures
        extend(start, digits.take(k)) <= extend(start, digits),
    decreases digits.len() - k,
{
    if k < digits.len() {
        lemma_extend_grows(start, digits, k + 1);
        assert(digits.take(k + 1) =~= digits.take(k).push(digits[k]));
        lemma_extend_step(start, digits.take(k), digits[k]);
    } else {
        assert(digits.take(k) =~= digits);
    }
}

/// The number written by two sequences of digits, one behind the other.
pub proof fn lemma_number_of_concatenation(a: Seq<char>, b: Seq<char>)
    ensures
        number(a + b) == extend(number(a), b),
    decreases b.len(),
{
    if b.len() == 0 {
        assert(a + b =~= a);
        assert(number(a) * 1 == number(a));
    } else {
        lemma_number_of_concatenation(a, b.drop_last());
        assert((a + b).drop_last() =~= a + b.drop_last());
        assert(b.drop_last().push(b.last()) =~= b);
        lemma_extend_step(number(a), b.drop_last(), b.last());
    }
}

/// Powers of ten grow with the exponent.
pub proof fn lemma_power_of_ten_grows(m: nat, n: nat)
    requires
        m <= n,
    ensures
        1 <= power_of_ten(m) <= power_of_ten(n),
    decreases n,
{
    if m < n {
        lemma_power_of_ten_grows(m, (n - 1) as nat);
    } else if n > 0 {
        lemma_power_of_ten_grows((m - 1) as nat, (n - 1) as nat);
    }
}

/// The number that the digits of `zone` write behind the digits of `start`,
/// unless it is larger than `limit`.
pub fn parse_digits_sequence(chars: &[char], zone: Zone, start: u128, limit: u128) -> (r: Option<
    u128,
>)
    requires
        zone.within(chars@),
        all_digits(zone.of(chars@)),
        start <= limit,
        limit * 10 + 9 <= u128::MAX,
    ensures
        r == if extend(start as nat, zone.of(chars@)) <= limit {
            Some(extend(start as nat, zone.of(chars@)) as u128)
        } else {
            None
        },
{
    let mut value: u128 = start;
    let mut at: usize = zone.start;
    proof {
        assert(chars@.subrange(zone.start as int, at as int) =~= Seq::<char>::empty());
        assert(start * 1 == start);
    }
    while at < zone.end
        invariant
            zone.within(chars@),
            all_digits(zone.of(chars@)),
            zone.start <= at <= zone.end,
            value == extend(start as nat, chars@.subrange(zone.start as int, at as int)),
            value <= limit,
            limit * 10 + 9 <= u128::MAX,
        decreases zone.end - at,
    {
        let ghost read = chars@.subrange(zone.start as int, at as int);
        proof {
            assert(zone.of(chars@)[at - zone.start] == chars@[at as int]);
            assert(chars@.subrange(zone.start as int, at + 1) =~= read.push(chars@[at as int]));
            lemma_extend_step(start as nat, read, chars@[at as int]);
        }
        let digit: u8 = match digit_of(chars[at]) {
            Some(d) => d,
            None => 0,
        };
        let next: u128 = value * 10 + digit as u128;
        if next > limit {
            proof {
                assert(zone.of(chars@).take(at + 1 - zone.start) =~= read.push(chars@[at as int]));
                lemma_extend_grows(start as nat, zone.of(chars@), at + 1 - zone.start);
            }
            return None;
        }
        value = next;
        at = at + 1;
    }
    proof {
        assert(chars@.subrange(zone.start as int, at as int) =~= zone.of(chars@));
    }
    Some(value)
}

/// Ten to the power `n`, unless it is larger than `limit`.
pub fn power_of_ten_within(n: usize, limit: u128) -> (r: Option<u128>)
    requires
        1 <= limit,
        limit * 10 <= u128::MAX,
    ensures
        r == if power_of_ten(n as nat) <= limit {
            Some(power_of_ten(n as nat) as u128)
        } else {
            None
        },
{
    let mut value: u128 = 1;
    let mut done: usize = 0;
    while done < n
        invariant
            done <= n,
            value == power_of_ten(done as nat),
            value <= limit,
            limit * 10 <= u128::MAX,
        decreases n - done,
    {
        let next: u128 = value * 10;
        if next > limit {
            proof {
                lemma_power_of_ten_grows((done + 1) as nat, n as nat);
            }
            return None;
        }
        value = next;
        done = done + 1;
    }
    Some(value)
}

/// The number that `n` nines write, which is `10^n - 1`, unless it is larger
/// than `limit`.
pub fn nines_within(n: usize, limit: u128) -> (r: Option<u128>)
    requires
        limit * 10 + 9 <= u128::MAX,
    ensures
        r == if power_of_ten(n as nat) - 1 <= limit {
            Some((power_of_ten(n as nat) - 1) as u128)
        } else {
            None
        },
{
    let mut value: u128 = 0;
    let mut done: usize = 0;
    while done < n
        invariant
            done <= n,
            value == power_of_ten(done as nat) - 1,
            value <= limit,
            limit * 10 + 9 <= u128::MAX,
        decreases n - done,
    {
        let next: u128 = value * 10 + 9;
        if next > limit {
            proof {
                lemma_power_of_ten_grows((done + 1) as nat, n as nat);
            }
            return None;
        }
        value = next;
        done = done + 1;
    }
    Some(value)
}

/// The numerator and the denominator of the digits before the repeating
/// block: the number that the integral and the fractional digits write
/// together, over ten to the number of fractional digits. `None` if either
/// is larger than `limit`.
pub fn get_p_q(chars: &[char], zones: Zones, limit: u128) -> (r: Option<(u128, u128)>)
    requires
        zones.within(chars@),
        1 <= limit,
        limit * 10 + 9 <= u128::MAX,
    ensures
        r == {
            let literal = zones.literal(chars@);
            let p = number(literal.integral + literal.fractional);
            let q = power_of_ten(literal.fractional.len());
            if p <= limit && q <= limit {
                Some((p as u128, q as u128))
            } else {
                None
            }
        },
{
    proof {
        let literal = zones.literal(chars@);
        lemma_number_of_concatenation(literal.integral, literal.fractional);
        assert(extend(0, literal.integral) == number(literal.integral)) by {
            assert(0 * power_of_ten(literal.integral.len()) == 0) by (nonlinear_arith);
        }
        lemma_extend_grows(number(literal.integral), literal.fractional, 0);
        assert(literal.fractional.take(0) =~= Seq::<char>::empty());
        assert(number(literal.integral) * 1 == number(literal.integral));
    }
    let integral: u128 = match parse_digits_sequence(chars, zones.integral, 0, limit) {
        Some(v) => v,
        None => {
            return None;
        },
    };
    let p: u128 = match parse_digits_sequence(chars, zones.fractional, integral, limit) {
        Some(v) => v,
        None => {
            return None;
        },
    };
    let q: u128 = match power_of_ten_within(zones.fractional.len(), limit) {
        Some(v) => v,
        None => {
            return None;
        },
    };
    Some((p, q))
}

/// The numerator and the denominator of the repeating block: the number
/// that its digits write, over as many nines as it has digits. Without a
/// repeating block they are 0 and 1. `None` if either is larger than
/// `limit`.
pub fn get_repeating_p_q(chars: &[char], zones: Zones, limit: u128) -> (r: Option<(u128, u128)>)
    requires
        zones.within(chars@),
        1 <= limit,
        limit * 10 + 9 <= u128::MAX,
    ensures
        r == {
            let repeating = zones.literal(chars@).repeating;
            if repeating.len() == 0 {
                Some((0u128, 1u128))
            } else {
                let p = number(repeating);
                let q = power_of_ten(repeating.len()) - 1;
                if p <= limit && q <= limit {
                    Some((p as u128, q as u128))
                } else {
                    None
                }
            }
        },
{
    if zones.repeating.len() == 0 {
        return Some((0, 1));
    }
    proof {
        let repeating = zones.literal(chars@).repeating;
        assert(extend(0, repeating) == number(repeating)) by {
            assert(0 * power_of_ten(repeating.len()) == 0) by (nonlinear_arith);
        }
    }
    let p: u128 = match parse_digits_sequence(chars, zones.repeating, 0, limit) {
        Some(v) => v,
        None => {
            return None;
        },
    };
    let q: u128 = match nines_within(zones.repeating.len(), limit) {
        Some(v) => v,
        None => {
            return None;
        },
    };
    Some((p, q))
}

/// What the literal with the given zones evaluates to.
pub fn evaluate(chars: &[char], zones: Zones) -> (r: Result<Rational, RationalError>)
    requires
        zones.within(chars@),
    ensures
        r == zones.literal(chars@).outcome(),
{
    let ghost literal = zones.literal(chars@);
    let limit: u128 = magnitude_of(isize::MIN);
    proof {
        lemma_signed_parts(literal);
    }
    let (p, q) = match get_p_q(chars, zones, limit) {
        Some(pair) => pair,
        None => {
            return Err(RationalError::Overflow);
        },
    };
    let (repeating_p, repeating_q) = match get_repeating_p_q(chars, zones, limit) {
        Some(pair) => pair,
        None => {
            proof {
                lemma_power_of_ten_grows(0, literal.fractional.len());
                lemma_tail_is_large(literal);
            }
            return Err(RationalError::Overflow);
        },
    };
    proof {
        lemma_power_of_ten_grows(0, literal.fractional.len());
        if literal.repeating.len() > 0 {
            lemma_power_of_ten_grows(1, literal.repeating.len());
        }
        assert(repeating_q * q <= 0x4000_0000_0000_0000_0000_0000_0000_0000) by (nonlinear_arith)
            requires
                repeating_q <= 0x8000_0000_0000_0000,
                q <= 0x8000_0000_0000_0000,
        ;
        assert(repeating_q * q > 0) by (nonlinear_arith)
            requires
                repeating_q > 0,
                q > 0,
        ;
    }
    let whole_p = (Wide { negative: zones.negative, magnitude: p }).narrow();
    let whole_q = (Wide { negative: false, magnitude: q }).narrow();
    let tail_p = (Wide { negative: zones.negative, magnitude: repeating_p }).narrow();
    let tail_q = (Wide { negative: false, magnitude: repeating_q * q }).narrow();
    match (whole_p, whole_q, tail_p, tail_q) {
        (Some(wp), Some(wq), Some(tp), Some(tq)) => {
            let whole = match Rational::new(wp, wq) {
                Ok(v) => v,
                Err(e) => {
                    return Err(e);
                },
            };
            let tail = match Rational::new(tp, tq) {
                Ok(v) => v,
                Err(e) => {
                    return Err(e);
                },
            };
            whole + tail
        },
        _ => Err(RationalError::Overflow),
    }
}

/// The numerators of the two parts are the numbers that the digits write,
/// with the sign of the literal.
pub proof fn lemma_signed_parts(literal: Literal)
    ensures
        literal.whole().num == if literal.negative {
            -(number(literal.integral + literal.fractional) as int)
        } else {
            number(literal.integral + literal.fractional) as int
        },
        literal.tail().num == if literal.repeating.len() == 0 {
            0
        } else if literal.negative {
            -(number(literal.repeating) as int)
        } else {
            number(literal.repeating) as int
        },
{
    let whole: int = number(literal.integral + literal.fractional) as int;
    let tail: int = number(literal.repeating) as int;
    assert((-1) * whole == -whole && 1 * whole == whole);
    assert((-1) * tail == -tail && 1 * tail == tail);
}

/// The denominator of the repeating part is at least each of its factors.
pub proof fn lemma_tail_is_large(literal: Literal)
    requires
        literal.repeating.len() > 0,
    ensures
        literal.tail().den >= power_of_ten(literal.repeating.len()) - 1,
        literal.tail().den >= power_of_ten(literal.fractional.len()),
{
    lemma_power_of_ten_grows(0, literal.fractional.len());
    lemma_power_of_ten_grows(1, literal.repeating.len());
    let nines: int = power_of_ten(literal.repeating.len()) - 1;
    let shift: int = power_of_ten(literal.fractional.len()) as int;
    assert(nines * shift >= nines && nines * shift >= shift) by (nonlinear_arith)
        requires
            nines >= 1,
            shift >= 1,
    ;
}

/// The rational that the characters write as a decimal literal.
pub fn parse_chars(chars: &[char]) -> (r: Result<Rational, RationalError>)
    ensures
        r == parse_result(chars@),
{
    match scan_zones(chars) {
        Ok(zones) => evaluate(chars, zones),
        Err(e) => Err(e),
    }
}

/// The characters of a text, one by one.
pub fn chars_of(text: &str) -> (chars: Vec<char>)
    ensures
        chars@ == text@,
{
    let mut chars: Vec<char> = Vec::new();
    for c in it: text.chars()
        invariant
            it.seq() == text@,
            chars@ == it.seq().take(it.index()),
    {
        chars.push(c);
    }
    chars
}

impl Rational {
    /// The rational that `text` writes as a decimal literal: an optional
    /// `-`, digits, an optional `.` with more digits, and an optional block
    /// of repeating digits in parentheses, with at least one digit in all.
    ///
    /// `"1.5"` is 3/2 and `"0.1(6)"` is 1/6. Any other text is a
    /// [`RationalError::Parse`]; a literal whose parts or whose value do not
    /// fit is a [`RationalError::Overflow`].
    pub fn parse(text: &str) -> (r: Result<Rational, RationalError>)
        ensures
            r == parse_result(text@),
    {
        let chars = chars_of(text);
        parse_chars(chars.as_slice())
    }
}

impl FromStr for Rational {
    type Err = RationalError;

    /// The same as [`Rational::parse`].
    fn from_str(text: &str) -> (r: Result<Rational, RationalError>)
        ensures
            r == parse_result(text@),
    {
        Rational::parse(text)
    }
}

} // verus!
