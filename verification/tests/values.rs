//! The numeric primitives and the exact value arithmetic on their own.

use calculator::errors::CalcError;
use calculator::value::{
    add_values, div_values, factorial, mul_values, neg_value, pow, rem_values, sub_values,
    Value,
};

fn fin(neg: bool, num: u64, den: u64) -> Value {
    Value::Finite { neg, num, den }
}

#[test]
fn pow_multiplies_the_base_in() {
    assert_eq!(pow(fin(false, 2, 1), 10, true), Ok(fin(false, 1024, 1)));
    assert_eq!(pow(fin(false, 3, 1), 0, true), Ok(fin(false, 1, 1)));
    assert_eq!(pow(fin(true, 2, 1), 3, true), Ok(fin(true, 8, 1)));
}

#[test]
fn pow_with_a_negative_exponent_is_a_reciprocal() {
    assert_eq!(pow(fin(false, 2, 1), -3, false), Ok(fin(false, 1, 8)));
    assert_eq!(pow(fin(false, 2, 1), 0, false), Ok(fin(false, 1, 1)));
}

#[test]
fn factorial_of_small_integers() {
    assert_eq!(factorial(fin(false, 0, 1)), Ok(fin(false, 1, 1)));
    assert_eq!(factorial(fin(false, 4, 1)), Ok(fin(false, 24, 1)));
    assert_eq!(factorial(fin(false, 6, 2)), Ok(fin(false, 6, 1)));
    assert_eq!(factorial(fin(false, 20, 1)), Ok(fin(false, 2432902008176640000, 1)));
}

#[test]
fn factorial_outside_its_domain() {
    assert_eq!(factorial(fin(true, 3, 1)), Err(CalcError::FactorialDomain));
    assert_eq!(factorial(fin(false, 1, 2)), Err(CalcError::FactorialDomain));
    assert_eq!(factorial(Value::PosInf), Err(CalcError::FactorialDomain));
    assert_eq!(factorial(fin(false, 21, 1)), Err(CalcError::Overflow));
}

#[test]
fn addition_over_a_common_denominator() {
    assert_eq!(add_values(fin(false, 1, 2), fin(false, 1, 3)), Ok(fin(false, 5, 6)));
    assert_eq!(add_values(fin(false, 1, 2), fin(true, 1, 2)), Ok(fin(false, 0, 4)));
    assert_eq!(add_values(Value::PosInf, fin(true, 7, 1)), Ok(Value::PosInf));
    assert_eq!(add_values(Value::PosInf, Value::NegInf), Ok(Value::NotANumber));
}

#[test]
fn subtraction_negates_and_adds() {
    assert_eq!(sub_values(fin(false, 1, 2), fin(false, 1, 3)), Ok(fin(false, 1, 6)));
    assert_eq!(sub_values(fin(false, 1, 3), fin(false, 1, 2)), Ok(fin(true, 1, 6)));
}

#[test]
fn multiplication_of_signs_and_infinities() {
    assert_eq!(mul_values(fin(true, 2, 3), fin(true, 3, 5)), Ok(fin(false, 6, 15)));
    assert_eq!(mul_values(Value::NegInf, fin(true, 2, 1)), Ok(Value::PosInf));
    assert_eq!(mul_values(Value::PosInf, fin(false, 0, 1)), Ok(Value::NotANumber));
}

#[test]
fn division_cross_multiplies() {
    assert_eq!(div_values(fin(false, 1, 2), fin(false, 3, 4)), Ok(fin(false, 4, 6)));
    assert_eq!(div_values(fin(true, 5, 1), fin(false, 0, 1)), Ok(Value::NegInf));
    assert_eq!(div_values(fin(false, 5, 1), Value::PosInf), Ok(fin(false, 0, 1)));
}

#[test]
fn remainder_takes_the_dividend_sign() {
    assert_eq!(rem_values(fin(true, 5, 1), fin(false, 3, 1)), Ok(fin(true, 2, 1)));
    assert_eq!(rem_values(fin(false, 5, 1), fin(true, 3, 1)), Ok(fin(false, 2, 1)));
    assert_eq!(rem_values(fin(false, 5, 1), Value::PosInf), Ok(fin(false, 5, 1)));
}

#[test]
fn negation_leaves_zero_alone() {
    assert_eq!(neg_value(fin(false, 3, 1)), fin(true, 3, 1));
    assert_eq!(neg_value(fin(true, 3, 1)), fin(false, 3, 1));
    assert_eq!(neg_value(fin(false, 0, 1)), fin(false, 0, 1));
    assert_eq!(neg_value(Value::PosInf), Value::NegInf);
}

#[test]
fn overflow_is_reported_not_rounded() {
    assert_eq!(
        mul_values(fin(false, 0x7fff_ffff_ffff_ffff, 1), fin(false, 2, 1)),
        Err(CalcError::Overflow)
    );
}
