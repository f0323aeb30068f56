//! End-to-end evaluations of whole equations.

use calculator::errors::CalcError;
use calculator::evaluate_equation;
use calculator::value::Value;

fn fin(neg: bool, num: u64, den: u64) -> Value {
    Value::Finite { neg, num, den }
}

#[test]
fn precedence_multiplication_binds_tighter() {
    assert_eq!(evaluate_equation(b"3+4*2"), Ok(fin(false, 11, 1)));
}

#[test]
fn parenthesis_override() {
    assert_eq!(evaluate_equation(b"(3+4)*2"), Ok(fin(false, 14, 1)));
}

#[test]
fn unary_negation_after_operator() {
    assert_eq!(evaluate_equation(b"5*-3"), Ok(fin(true, 15, 1)));
}

#[test]
fn unary_negation_inside_parentheses() {
    assert_eq!(evaluate_equation(b"5*(-3)"), Ok(fin(true, 15, 1)));
}

#[test]
fn leading_minus_subtracts_from_implicit_zero() {
    assert_eq!(evaluate_equation(b"-5"), Ok(fin(true, 5, 1)));
}

#[test]
fn double_minus_negates_the_right_operand() {
    assert_eq!(evaluate_equation(b"5--3"), Ok(fin(false, 8, 1)));
}

#[test]
fn factorial_of_four() {
    assert_eq!(evaluate_equation(b"4!"), Ok(fin(false, 24, 1)));
}

#[test]
fn factorial_of_zero() {
    assert_eq!(evaluate_equation(b"0!"), Ok(fin(false, 1, 1)));
}

#[test]
fn factorial_stack_quirk_pushes_lower_value_back() {
    // '!' pops its operand and the value below it, pushes the lower value
    // back and then the factorial: 2 stays under 3! = 6 and '+' sees 2 + 6,
    // not 3 + 6.
    assert_eq!(evaluate_equation(b"2+3!"), Ok(fin(false, 8, 1)));
}

#[test]
fn power_with_positive_exponent() {
    assert_eq!(evaluate_equation(b"2^10"), Ok(fin(false, 1024, 1)));
}

#[test]
fn power_with_negative_exponent_is_a_reciprocal() {
    assert_eq!(evaluate_equation(b"2^-1"), Ok(fin(false, 1, 2)));
}

#[test]
fn division_by_zero_is_positive_infinity() {
    assert_eq!(evaluate_equation(b"5/0"), Ok(Value::PosInf));
}

#[test]
fn zero_by_zero_is_not_a_number() {
    assert_eq!(evaluate_equation(b"0/0"), Ok(Value::NotANumber));
}

#[test]
fn modulo_keeps_the_dividend_sign() {
    assert_eq!(evaluate_equation(b"7%3"), Ok(fin(false, 1, 1)));
    assert_eq!(evaluate_equation(b"0-7%3"), Ok(fin(true, 1, 1)));
}

#[test]
fn modulo_by_zero_is_not_a_number() {
    assert_eq!(evaluate_equation(b"5%0"), Ok(Value::NotANumber));
}

#[test]
fn division_keeps_exact_fractions() {
    assert_eq!(evaluate_equation(b"1/3"), Ok(fin(false, 1, 3)));
}

#[test]
fn whitespace_is_ignored() {
    assert_eq!(evaluate_equation(b" 3 +\t4 \n"), Ok(fin(false, 7, 1)));
}

#[test]
fn invalid_character_is_reported() {
    assert_eq!(evaluate_equation(b"3+@2"), Err(CalcError::InvalidCharacter(b'@')));
}

#[test]
fn unbalanced_parentheses_are_reported() {
    assert_eq!(evaluate_equation(b"(3+4"), Err(CalcError::UnbalancedParentheses));
    assert_eq!(evaluate_equation(b"3+4)"), Err(CalcError::UnbalancedParentheses));
}

#[test]
fn lone_operator_underflows_the_stack() {
    assert_eq!(evaluate_equation(b"+"), Err(CalcError::StackUnderflow));
}

#[test]
fn empty_equation_has_no_result() {
    assert_eq!(evaluate_equation(b""), Err(CalcError::NoResult));
}

#[test]
fn factorial_of_a_fraction_is_a_domain_error() {
    assert_eq!(evaluate_equation(b"(1/2)!"), Err(CalcError::FactorialDomain));
}

#[test]
fn factorial_of_a_negative_value_is_a_domain_error() {
    assert_eq!(evaluate_equation(b"(-3)!"), Err(CalcError::FactorialDomain));
}

#[test]
fn oversized_literal_overflows() {
    assert_eq!(
        evaluate_equation(b"9223372036854775808"),
        Err(CalcError::Overflow)
    );
}

#[test]
fn oversized_factorial_overflows() {
    assert_eq!(evaluate_equation(b"21!"), Err(CalcError::Overflow));
}

#[test]
fn repeated_evaluation_yields_the_same_result() {
    let first = evaluate_equation(b"(3+4)*2^2-5");
    let second = evaluate_equation(b"(3+4)*2^2-5");
    assert_eq!(first, second);
    let third = evaluate_equation(b"3+@2");
    let fourth = evaluate_equation(b"3+@2");
    assert_eq!(third, fourth);
}
