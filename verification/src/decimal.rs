//! Decimal literals and what they denote.
//!
//! A literal is an optional `-`, digits, an optional `.` with more digits,
//! and an optional block of repeating digits in parentheses: `-12.5`, `.75`,
//! `0.1(6)`. [`scan`] says how a text falls into these zones, and
//! [`Literal::outcome`] what a literal with given zones evaluates to.

use crate::error::RationalError;
use crate::fraction::Fraction;
use crate::rational::Rational;
use vstd::prelude::*;

verus! {

/// `c` is one of the ten decimal digits.
pub open spec fn is_digit(c: char) -> bool {
    '0' <= c <= '9'
}

/// The number that a decimal digit stands for.
pub open spec fn digit_value(c: char) -> nat {
    (c as int - '0' as int) as nat
}

/// Every character of `s` is a decimal digit.
pub open spec fn all_digits(s: Seq<char>) -> bool {
    forall|i: int| 0 <= i < s.len() ==> is_digit(#[trigger] s[i])
}

/// The length of the longest run of digits in `s` that starts at `from`.
pub open spec fn digit_run(s: Seq<char>, from: int) -> nat
    decreases s.len() - from,
{
    if 0 <= from < s.len() && is_digit(s[from]) {
        1 + digit_run(s, from + 1)
    } else {
        0
    }
}

/// The number written by a sequence of digits; the empty sequence writes 0.
pub open spec fn number(digits: Seq<char>) -> nat
    decreases digits.len(),
{
    if digits.len() == 0 {
        0
    } else {
        10 * number(digits.drop_last()) + digit_value(digits.last())
    }
}

/// Ten to the power `n`.
pub open spec fn power_of_ten(n: nat) -> nat
    decreases n,
{
    if n == 0 {
        1
    } else {
        10 * power_of_ten((n - 1) as nat)
    }
}

/// The character of `s` at `at` is `c`.
pub open spec fn has_at(s: Seq<char>, at: int, c: char) -> bool {
    0 <= at < s.len() && s[at] == c
}

/// The zones of a decimal literal: its sign and its three runs of digits.
pub struct Literal {
    pub negative: bool,
    pub integral: Seq<char>,
    pub fractional: Seq<char>,
    pub repeating: Seq<char>,
}

impl Literal {
    /// The zones hold digits only, and at least one digit between them.
    pub open spec fn well_formed(self) -> bool {
        &&& all_digits(self.integral)
        &&& all_digits(self.fractional)
        &&& all_digits(self.repeating)
        &&& self.integral.len() + self.fractional.len() + self.repeating.len() > 0
    }

    /// The sign as it is written: a minus sign or nothing.
    pub open spec fn sign_text(self) -> Seq<char> {
        if self.negative {
            seq!['-']
        } else {
            Seq::<char>::empty()
        }
    }

    /// The point and the fractional digits as they are written. The point
    /// is written if there are fractional digits, and otherwise where
    /// `point` asks for it.
    pub open spec fn fraction_text(self, point: bool) -> Seq<char> {
        if point || self.fractional.len() > 0 {
            seq!['.'] + self.fractional
        } else {
            Seq::<char>::empty()
        }
    }

    /// The repeating digits in their parentheses, or nothing if there are
    /// no repeating digits.
    pub open spec fn block_text(self) -> Seq<char> {
        if self.repeating.len() > 0 {
            seq!['('] + self.repeating + seq![')']
        } else {
            Seq::<char>::empty()
        }
    }

    /// The text of the literal: sign, integral digits, point with
    /// fractional digits, repeating block.
    pub open spec fn text(self, point: bool) -> Seq<char> {
        self.sign_text() + self.integral + self.fraction_text(point) + self.block_text()
    }

    /// 1 or -1.
    pub open spec fn sign(self) -> int {
        if self.negative {
            -1
        } else {
            1
        }
    }

    /// The digits before the repeating block, as a fraction over a power of
    /// ten: `12.5` is `125 / 10`.
    pub open spec fn whole(self) -> Fraction {
        Fraction {
            num: self.sign() * number(self.integral + self.fractional),
            den: power_of_ten(self.fractional.len()) as int,
        }
    }

    /// The repeating block, as a fraction: `k` repeating digits that write
    /// `r`, after `f` fractional digits, are `r / ((10^k - 1) * 10^f)`. With
    /// no repeating block it is `0 / 10^f`.
    pub open spec fn tail(self) -> Fraction {
        if self.repeating.len() == 0 {
            Fraction { num: 0, den: power_of_ten(self.fractional.len()) as int }
        } else {
            Fraction {
                num: self.sign() * number(self.repeating),
                den: (power_of_ten(self.repeating.len()) - 1) * power_of_ten(
                    self.fractional.len(),
                ),
            }
        }
    }

    /// What the literal evaluates to: the sum of its two parts, each brought
    /// to lowest terms first, in lowest terms. It is an overflow if a field
    /// of a part, or of the sum, does not fit.
    pub open spec fn outcome(self) -> Result<Rational, RationalError> {
        if self.whole().fits() && self.tail().fits() {
            Rational::checked(
                self.whole().lowest_terms().plus(self.tail().lowest_terms()).lowest_terms(),
            )
        } else {
            Err(RationalError::Overflow)
        }
    }
}

/// The zones of `s`, read from left to right with each run of digits taken
/// as long as it goes, or `None` if `s` is not a literal.
pub open spec fn scan(s: Seq<char>) -> Option<Literal> {
    let int_start: int = if has_at(s, 0, '-') {
        1
    } else {
        0
    };
    let int_end = int_start + digit_run(s, int_start);
    let point = has_at(s, int_end, '.');
    let frac_start = if point {
        int_end + 1
    } else {
        int_end
    };
    let frac_end = if point {
        frac_start + digit_run(s, frac_start)
    } else {
        frac_start
    };
    let block = has_at(s, frac_end, '(');
    let rep_start = if block {
        frac_end + 1
    } else {
        frac_end
    };
    let rep_end = if block {
        rep_start + digit_run(s, rep_start)
    } else {
        rep_start
    };
    let end = if block {
        rep_end + 1
    } else {
        rep_end
    };
    if block && (rep_end == rep_start || !has_at(s, rep_end, ')')) {
        None
    } else if end != s.len() {
        None
    } else if int_end - int_start + (frac_end - frac_start) + (rep_end - rep_start) == 0 {
        None
    } else {
        Some(
            Literal {
                negative: int_start == 1,
                integral: s.subrange(int_start, int_end),
                fractional: s.subrange(frac_start, frac_end),
                repeating: s.subrange(rep_start, rep_end),
            },
        )
    }
}

/// What parsing the text `s` returns.
pub open spec fn parse_result(s: Seq<char>) -> Result<Rational, RationalError> {
    match scan(s) {
        None => Err(RationalError::Parse),
        Some(literal) => literal.outcome(),
    }
}

} // verus!
