//! Literals as a tokenizer prints them.
//!
//! A tokenizer takes `-1.3(5)` apart into a sign, a number and a group, and
//! prints them with spaces between: `- 1.3 (5)`. Before such a text is
//! parsed, the space behind a minus sign and the space before an opening
//! parenthesis are taken out again.

use crate::decimal::parse_result;
use crate::error::RationalError;
use crate::parser::{chars_of, parse_chars};
use crate::rational::Rational;
use vstd::prelude::*;

verus! {

/// `s` with every `first` that is followed by `second` replaced, together
/// with that `second`, by `with`. The text is read from left to right, and
/// what was replaced is not read again.
pub open spec fn replaced(s: Seq<char>, first: char, second: char, with: char) -> Seq<char>
    decreases s.len(),
{
    if s.len() == 0 {
        s
    } else if s.len() >= 2 && s[0] == first && s[1] == second {
        seq![with] + replaced(s.skip(2), first, second, with)
    } else {
        seq![s[0]] + replaced(s.skip(1), first, second, with)
    }
}

/// `s` without the space behind each minus sign, and then without the space
/// before each opening parenthesis.
pub open spec fn joined(s: Seq<char>) -> Seq<char> {
    replaced(replaced(s, '-', ' ', '-'), ' ', '(', '(')
}

/// The characters with every `first` that is followed by `second` replaced,
/// together with that `second`, by `with`.
pub fn replace_pair(chars: &[char], first: char, second: char, with: char) -> (out: Vec<char>)
    ensures
        out@ == replaced(chars@, first, second, with),
{
    let mut out: Vec<char> = Vec::new();
    let mut i: usize = 0;
    proof {
        let all = replaced(chars@, first, second, with);
        assert(chars@.skip(0) =~= chars@);
        assert(out@ + all =~= all);
    }
    while i < chars.len()
        invariant
            i <= chars.len(),
            replaced(chars@, first, second, with) == out@ + replaced(
                chars@.skip(i as int),
                first,
                second,
                with,
            ),
        decreases chars.len() - i,
    {
        let ghost rest = chars@.skip(i as int);
        let ghost before = out@;
        if i + 1 < chars.len() && chars[i] == first && chars[i + 1] == second {
            out.push(with);
            proof {
                let after = replaced(rest.skip(2), first, second, with);
                assert(rest.skip(2) =~= chars@.skip(i + 2));
                assert(before + (seq![with] + after) =~= before.push(with) + after);
            }
            i = i + 2;
        } else {
            out.push(chars[i]);
            proof {
                let after = replaced(rest.skip(1), first, second, with);
                assert(rest.skip(1) =~= chars@.skip(i + 1));
                assert(before + (seq![rest[0]] + after) =~= before.push(rest[0]) + after);
            }
            i = i + 1;
        }
    }
    assert(out@ + Seq::<char>::empty() =~= out@);
    out
}

/// The characters without the space behind each minus sign and the space
/// before each opening parenthesis.
pub fn join_tokens(chars: &[char]) -> (out: Vec<char>)
    ensures
        out@ == joined(chars@),
{
    let signed = replace_pair(chars, '-', ' ', '-');
    replace_pair(signed.as_slice(), ' ', '(', '(')
}

/// The rational that `text` writes as a decimal literal, where `text` may
/// have a space behind a minus sign and before an opening parenthesis:
/// `"- 1.3 (5)"` is read as `"-1.3(5)"`.
pub fn parse_tokens(text: &str) -> (r: Result<Rational, RationalError>)
    ensures
        r == parse_result(joined(text@)),
{
    let chars = chars_of(text);
    let joined = join_tokens(chars.as_slice());
    parse_chars(joined.as_slice())
}

} // verus!
