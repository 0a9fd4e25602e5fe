//! Laws of decimal literals: what a literal evaluates to, and that
//! different ways of writing one expansion give one value.

use crate::decimal::{number, power_of_ten, Literal};
use crate::laws::{
    lemma_lowest_terms_keeps_value, lemma_plus_respects_value, lemma_results_are_valid,
};
use crate::order_laws::{
    lemma_same_value_reflexive, lemma_same_value_symmetric, lemma_same_value_transitive,
};
use crate::parser::{lemma_number_of_concatenation, lemma_power_of_ten_grows};
use crate::rational::Rational;
use vstd::prelude::*;

verus! {

/// The two parts of a literal are valid fractions.
pub proof fn lemma_parts_are_valid(literal: Literal)
    ensures
        literal.whole().valid(),
        literal.tail().valid(),
{
    lemma_power_of_ten_grows(0, literal.fractional.len());
    if literal.repeating.len() > 0 {
        lemma_power_of_ten_grows(1, literal.repeating.len());
        let nines: int = power_of_ten(literal.repeating.len()) - 1;
        let shift: int = power_of_ten(literal.fractional.len()) as int;
        assert(nines * shift != 0) by (nonlinear_arith)
            requires
                nines >= 1,
                shift >= 1,
        ;
    }
}

/// What a literal evaluates to has the value of the sum of its two parts.
pub proof fn lemma_outcome_value(literal: Literal)
    requires
        literal.outcome() is Ok,
    ensures
        literal.outcome()->Ok_0@.same_value(literal.whole().plus(literal.tail())),
{
    let whole = literal.whole();
    let tail = literal.tail();
    lemma_parts_are_valid(literal);
    lemma_lowest_terms_keeps_value(whole);
    lemma_lowest_terms_keeps_value(tail);
    let sum = whole.lowest_terms().plus(tail.lowest_terms());
    lemma_results_are_valid(whole.lowest_terms(), tail.lowest_terms());
    lemma_results_are_valid(whole, tail);
    lemma_lowest_terms_keeps_value(sum);
    lemma_plus_respects_value(whole.lowest_terms(), tail.lowest_terms(), whole, tail);
    lemma_same_value_transitive(sum.lowest_terms(), sum, whole.plus(tail));
    Rational::lemma_checked(sum.lowest_terms());
}

/// Two literals whose parts add up to the same value evaluate to equal
/// rationals, where both evaluate.
pub proof fn lemma_equal_expansions_agree(a: Literal, b: Literal)
    requires
        a.outcome() is Ok,
        b.outcome() is Ok,
        a.whole().plus(a.tail()).same_value(b.whole().plus(b.tail())),
    ensures
        a.outcome()->Ok_0@.same_value(b.outcome()->Ok_0@),
{
    let x = a.outcome()->Ok_0@;
    let y = b.outcome()->Ok_0@;
    let sum_a = a.whole().plus(a.tail());
    let sum_b = b.whole().plus(b.tail());
    lemma_outcome_value(a);
    lemma_outcome_value(b);
    lemma_parts_are_valid(a);
    lemma_parts_are_valid(b);
    lemma_results_are_valid(a.whole(), a.tail());
    lemma_results_are_valid(b.whole(), b.tail());
    lemma_same_value_transitive(x, sum_a, sum_b);
    lemma_same_value_symmetric(y, sum_b);
    lemma_same_value_transitive(x, sum_b, y);
}

/// Ten to a sum is the product of the powers.
pub proof fn lemma_power_of_ten_adds(m: nat, n: nat)
    ensures
        power_of_ten(m + n) == power_of_ten(m) * power_of_ten(n),
    decreases n,
{
    if n == 0 {
        assert(power_of_ten(m) * 1 == power_of_ten(m));
    } else {
        lemma_power_of_ten_adds(m, (n - 1) as nat);
        assert(power_of_ten(m) * (10 * power_of_ten((n - 1) as nat)) == 10 * (power_of_ten(m)
            * power_of_ten((n - 1) as nat))) by (nonlinear_arith);
    }
}

/// Writing the repeating block twice does not change the value: `0.(3)`
/// is `0.(33)`.
pub proof fn lemma_block_written_twice(literal: Literal)
    requires
        literal.repeating.len() > 0,
    ensures
        ({
            let twice = Literal { repeating: literal.repeating + literal.repeating, ..literal };
            &&& twice.whole() == literal.whole()
            &&& twice.tail().same_value(literal.tail())
            &&& twice.whole().plus(twice.tail()).same_value(literal.whole().plus(literal.tail()))
        }),
{
    let twice = Literal { repeating: literal.repeating + literal.repeating, ..literal };
    let k: nat = literal.repeating.len();
    let x: int = power_of_ten(k) as int;
    let f: int = power_of_ten(literal.fractional.len()) as int;
    let r: int = number(literal.repeating) as int;
    let s: int = literal.sign();
    lemma_number_of_concatenation(literal.repeating, literal.repeating);
    lemma_power_of_ten_adds(k, k);
    assert(number(twice.repeating) == r * x + r);
    assert(power_of_ten(twice.repeating.len()) == x * x);
    assert((s * (r * x + r)) * ((x - 1) * f) == ((x * x - 1) * f) * (s * r)) by (nonlinear_arith);
    lemma_same_value_reflexive(literal.whole());
    lemma_plus_respects_value(twice.whole(), twice.tail(), literal.whole(), literal.tail());
}

/// Moving one round of the repeating block in front of the parentheses
/// does not change the value: `0.1(6)` is `0.16(6)`.
pub proof fn lemma_block_unrolled(literal: Literal)
    requires
        literal.repeating.len() > 0,
    ensures
        ({
            let unrolled = Literal {
                fractional: literal.fractional + literal.repeating,
                ..literal
            };
            unrolled.whole().plus(unrolled.tail()).same_value(
                literal.whole().plus(literal.tail()),
            )
        }),
{
    let unrolled = Literal { fractional: literal.fractional + literal.repeating, ..literal };
    let k: nat = literal.repeating.len();
    let x: int = power_of_ten(k) as int;
    let f: int = power_of_ten(literal.fractional.len()) as int;
    let n: int = number(literal.integral + literal.fractional) as int;
    let r: int = number(literal.repeating) as int;
    let s: int = literal.sign();
    lemma_number_of_concatenation(literal.integral + literal.fractional, literal.repeating);
    assert(literal.integral + (literal.fractional + literal.repeating) =~= (literal.integral
        + literal.fractional) + literal.repeating);
    lemma_power_of_ten_adds(literal.fractional.len(), k);
    assert(number(unrolled.integral + unrolled.fractional) == n * x + r);
    assert(power_of_ten(unrolled.fractional.len()) == f * x);
    let before = literal.whole().plus(literal.tail());
    let after = unrolled.whole().plus(unrolled.tail());
    assert(before.num == (s * n) * ((x - 1) * f) + (s * r) * f);
    assert(before.den == f * ((x - 1) * f));
    assert(after.num == (s * (n * x + r)) * ((x - 1) * (f * x)) + (s * r) * (f * x));
    assert(after.den == (f * x) * ((x - 1) * (f * x)));
    let u: int = s * n;
    let v: int = s * r;
    let xx: int = x * x;
    assert(s * (n * x + r) == u * x + v) by (nonlinear_arith)
        requires
            u == s * n,
            v == s * r,
    ;
    assert((u * x + v) * ((x - 1) * (f * x)) == (u * ((x - 1) * f)) * (x * x) + v * ((x - 1) * (f
        * x))) by (nonlinear_arith);
    assert(v * ((x - 1) * (f * x)) + v * (f * x) == (v * f) * (x * x)) by (nonlinear_arith);
    assert((u * ((x - 1) * f)) * xx + (v * f) * xx == (u * ((x - 1) * f) + v * f) * xx)
        by (nonlinear_arith);
    assert(after.num == before.num * xx);
    assert((f * x) * ((x - 1) * (f * x)) == (f * ((x - 1) * f)) * (x * x)) by (nonlinear_arith);
    assert(after.den == before.den * xx);
    assert(after.num * before.den == after.den * before.num) by (nonlinear_arith)
        requires
            after.num == before.num * xx,
            after.den == before.den * xx,
    ;
}

} // verus!
