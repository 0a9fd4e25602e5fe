//! Reading and writing agree: [`scan`] finds the zones of exactly the texts
//! that [`Literal::text`] writes, and finds the zones that were written.

use crate::decimal::{all_digits, digit_run, has_at, is_digit, parse_result, scan, Literal};
use crate::parser::lemma_digit_run;
use vstd::prelude::*;

verus! {

/// A stretch of `n` digits that is not followed by a digit is the longest
/// run of digits at its start.
pub proof fn lemma_digit_run_is(s: Seq<char>, from: int, n: nat)
    requires
        0 <= from,
        from + n <= s.len(),
        forall|i: int| from <= i < from + n ==> is_digit(#[trigger] s[i]),
        from + n == s.len() || !is_digit(s[from + n]),
    ensures
        digit_run(s, from) == n,
    decreases n,
{
    if n > 0 {
        lemma_digit_run_is(s, from + 1, (n - 1) as nat);
    }
}

/// Where each character of four sequences lies when they are put behind
/// one another.
pub proof fn lemma_four_parts(p: Seq<char>, q: Seq<char>, r: Seq<char>, t: Seq<char>)
    ensures
        (p + q + r + t).len() == p.len() + q.len() + r.len() + t.len(),
        forall|i: int|
            0 <= i < p.len() + q.len() + r.len() + t.len() ==> #[trigger] (p + q + r + t)[i] == if i
                < p.len() {
                p[i]
            } else if i < p.len() + q.len() {
                q[i - p.len()]
            } else if i < p.len() + q.len() + r.len() {
                r[i - p.len() - q.len()]
            } else {
                t[i - p.len() - q.len() - r.len()]
            },
{
}

/// The text starts with a minus sign exactly if the literal is negative.
pub proof fn lemma_text_sign(literal: Literal, point: bool)
    requires
        literal.well_formed(),
    ensures
        has_at(literal.text(point), 0, '-') == literal.negative,
{
    let s = literal.text(point);
    let fraction = literal.fraction_text(point);
    let block = literal.block_text();
    lemma_four_parts(literal.sign_text(), literal.integral, fraction, block);
    if literal.negative {
        assert(s[0] == literal.sign_text()[0]);
    } else if literal.integral.len() > 0 {
        assert(s[0] == literal.integral[0]);
        assert(is_digit(literal.integral[0]));
    } else if fraction.len() > 0 {
        assert(s[0] == fraction[0]);
    } else {
        assert(block.len() > 0);
        assert(s[0] == block[0]);
    }
}

/// The integral digits behind the sign are a longest run of digits.
pub proof fn lemma_text_integral(literal: Literal, point: bool)
    requires
        literal.well_formed(),
    ensures
        digit_run(literal.text(point), literal.sign_text().len() as int)
            == literal.integral.len(),
        literal.text(point).subrange(
            literal.sign_text().len() as int,
            literal.sign_text().len() as int + literal.integral.len(),
        ) == literal.integral,
{
    let s = literal.text(point);
    let fraction = literal.fraction_text(point);
    let block = literal.block_text();
    lemma_four_parts(literal.sign_text(), literal.integral, fraction, block);
    let a: int = literal.sign_text().len() as int;
    let b: int = a + literal.integral.len();
    assert forall|i: int| a <= i < b implies is_digit(#[trigger] s[i]) by {
        assert(s[i] == literal.integral[i - a]);
        assert(is_digit(literal.integral[i - a]));
    }
    if b < s.len() {
        if fraction.len() > 0 {
            assert(s[b] == fraction[0]);
        } else {
            assert(s[b] == block[0]);
        }
    }
    lemma_digit_run_is(s, a, literal.integral.len());
    assert forall|i: int| 0 <= i < literal.integral.len() implies s.subrange(a, b)[i]
        == literal.integral[i] by {
        assert(s[a + i] == literal.integral[i]);
    }
    assert(s.subrange(a, b) =~= literal.integral);
}

/// A point stands behind the integral digits exactly if one was written,
/// and the fractional digits behind it are a longest run of digits.
pub proof fn lemma_text_fraction(literal: Literal, point: bool)
    requires
        literal.well_formed(),
    ensures
        ({
            let s = literal.text(point);
            let b = literal.sign_text().len() as int + literal.integral.len();
            let dot = literal.fraction_text(point).len() > 0;
            &&& has_at(s, b, '.') == dot
            &&& dot ==> digit_run(s, b + 1) == literal.fractional.len()
            &&& dot ==> s.subrange(b + 1, b + 1 + literal.fractional.len()) == literal.fractional
            &&& !dot ==> literal.fractional.len() == 0
        }),
{
    let s = literal.text(point);
    let sign = literal.sign_text();
    let fraction = literal.fraction_text(point);
    let block = literal.block_text();
    lemma_four_parts(sign, literal.integral, fraction, block);
    let b: int = sign.len() as int + literal.integral.len();
    let c: int = b + fraction.len();
    if fraction.len() > 0 {
        assert(s[b] == fraction[0]);
        assert forall|i: int| b + 1 <= i < c implies is_digit(#[trigger] s[i]) by {
            assert(s[i] == fraction[i - b]);
            assert(fraction[i - b] == literal.fractional[i - b - 1]);
        }
        if c < s.len() {
            assert(s[c] == block[0]);
        }
        lemma_digit_run_is(s, b + 1, literal.fractional.len());
        assert forall|i: int| 0 <= i < literal.fractional.len() implies s.subrange(b + 1, c)[i]
            == literal.fractional[i] by {
            assert(s[b + 1 + i] == fraction[i + 1]);
        }
        assert(s.subrange(b + 1, c) =~= literal.fractional);
    } else if b < s.len() {
        assert(s[b] == block[0]);
    }
}

/// A parenthesis opens behind the fractional digits exactly if there are
/// repeating digits; they are then a longest run of digits, and behind
/// them the parenthesis closes the text.
pub proof fn lemma_text_block(literal: Literal, point: bool)
    requires
        literal.well_formed(),
    ensures
        ({
            let s = literal.text(point);
            let c = literal.sign_text().len() as int + literal.integral.len()
                + literal.fraction_text(point).len();
            let open = literal.repeating.len() > 0;
            let e = c + 1 + literal.repeating.len();
            &&& has_at(s, c, '(') == open
            &&& open ==> digit_run(s, c + 1) == literal.repeating.len()
            &&& open ==> s.subrange(c + 1, e) == literal.repeating
            &&& open ==> has_at(s, e, ')')
            &&& open ==> s.len() == e + 1
            &&& !open ==> s.len() == c
        }),
{
    let s = literal.text(point);
    let sign = literal.sign_text();
    let fraction = literal.fraction_text(point);
    let block = literal.block_text();
    lemma_four_parts(sign, literal.integral, fraction, block);
    let c: int = sign.len() as int + literal.integral.len() + fraction.len();
    if literal.repeating.len() > 0 {
        let e: int = c + 1 + literal.repeating.len();
        assert(s[c] == block[0]);
        assert(s[e] == block[e - c]);
        assert forall|i: int| c + 1 <= i < e implies is_digit(#[trigger] s[i]) by {
            assert(s[i] == block[i - c]);
            assert(block[i - c] == literal.repeating[i - c - 1]);
        }
        lemma_digit_run_is(s, c + 1, literal.repeating.len());
        assert forall|i: int| 0 <= i < literal.repeating.len() implies s.subrange(c + 1, e)[i]
            == literal.repeating[i] by {
            assert(s[c + 1 + i] == block[i + 1]);
        }
        assert(s.subrange(c + 1, e) =~= literal.repeating);
    }
}

/// The text of a well-formed literal is read back with the zones of the
/// literal, whether or not a point without fractional digits was written.
pub proof fn lemma_scan_reads_text(literal: Literal, point: bool)
    requires
        literal.well_formed(),
    ensures
        scan(literal.text(point)) == Some(literal),
        parse_result(literal.text(point)) == literal.outcome(),
{
    lemma_text_sign(literal, point);
    lemma_text_integral(literal, point);
    lemma_text_fraction(literal, point);
    lemma_text_block(literal, point);
    let s = literal.text(point);
    let a: int = literal.sign_text().len() as int;
    let c: int = a + literal.integral.len() + literal.fraction_text(point).len();
    if literal.fraction_text(point).len() == 0 {
        assert(s.subrange(c, c) =~= literal.fractional);
    }
    if literal.repeating.len() == 0 {
        assert(s.subrange(c, c) =~= literal.repeating);
    }
}

/// What `scan` finds is a well-formed literal, and the text is one of the
/// two ways of writing it.
pub proof fn lemma_scan_finds_literals(s: Seq<char>)
    requires
        scan(s) is Some,
    ensures
        scan(s)->0.well_formed(),
        s == scan(s)->0.text(false) || s == scan(s)->0.text(true),
{
    let literal = scan(s)->0;
    let a: int = if has_at(s, 0, '-') {
        1
    } else {
        0
    };
    lemma_digit_run(s, a);
    let b: int = a + digit_run(s, a);
    let dot = has_at(s, b, '.');
    let f: int = if dot {
        b + 1
    } else {
        b
    };
    if dot {
        lemma_digit_run(s, f);
    }
    let c: int = if dot {
        f + digit_run(s, f)
    } else {
        f
    };
    let open = has_at(s, c, '(');
    let r: int = if open {
        c + 1
    } else {
        c
    };
    if open {
        lemma_digit_run(s, r);
    }
    let e: int = if open {
        r + digit_run(s, r)
    } else {
        r
    };
    assert(literal.integral == s.subrange(a, b));
    assert(literal.fractional == s.subrange(f, c));
    assert(literal.repeating == s.subrange(r, e));
    assert(all_digits(literal.fractional));
    assert(all_digits(literal.repeating));
    assert(s =~= literal.text(dot));
}

/// Reading a text, writing the zones that were found and reading what was
/// written gives what reading the text gave, with or without a point where
/// there are no fractional digits.
pub proof fn lemma_parse_round_trip(s: Seq<char>, point: bool)
    requires
        scan(s) is Some,
    ensures
        parse_result(scan(s)->0.text(point)) == parse_result(s),
{
    lemma_scan_finds_literals(s);
    lemma_scan_reads_text(scan(s)->0, point);
}

} // verus!
