//! The converter and its helpers, plus the balance checker, on concrete
//! inputs.

use calculator::balance::parenthesis_check;
use calculator::errors::CalcError;
use calculator::eval::evaluate_postfix;
use calculator::postfix::{infix_to_postfix, pop_operators, pop_parenthesis};
use calculator::symbols::{is_add_or_sub, is_multi_or_div, is_symbol, precedence_level};
use calculator::value::Value;

#[test]
fn balanced_equations_pass_the_check() {
    assert!(parenthesis_check(b""));
    assert!(parenthesis_check(b"3+4"));
    assert!(parenthesis_check(b"(()())"));
    assert!(parenthesis_check(b"((3+4)*2)"));
}

#[test]
fn unmatched_parentheses_fail_the_check() {
    assert!(!parenthesis_check(b"(()"));
    assert!(!parenthesis_check(b"())("));
    assert!(!parenthesis_check(b")("));
    assert!(!parenthesis_check(b"3+4)"));
}

#[test]
fn postfix_of_a_precedence_chain() {
    assert_eq!(infix_to_postfix(b"3+4*2"), Ok(b"3 4 2 * + ".to_vec()));
}

#[test]
fn postfix_of_a_parenthesized_sum() {
    assert_eq!(infix_to_postfix(b"(3+4)*2"), Ok(b"3 4 + 2 * ".to_vec()));
}

#[test]
fn postfix_writes_the_negation_marker() {
    assert_eq!(infix_to_postfix(b"5*-3"), Ok(b"5 &3 * ".to_vec()));
}

#[test]
fn postfix_rejects_an_invalid_byte() {
    assert_eq!(infix_to_postfix(b"3+@2"), Err(CalcError::InvalidCharacter(b'@')));
}

#[test]
fn postfix_rejects_a_close_paren_with_no_open() {
    assert_eq!(infix_to_postfix(b"3+4)"), Err(CalcError::UnbalancedParentheses));
    assert_eq!(infix_to_postfix(b")"), Err(CalcError::UnbalancedParentheses));
}

#[test]
fn postfix_of_a_fully_parenthesized_number() {
    assert_eq!(infix_to_postfix(b"(5)"), Ok(b"5 ".to_vec()));
}

#[test]
fn postfix_keeps_multi_digit_runs_together() {
    assert_eq!(infix_to_postfix(b"12+345"), Ok(b"12 345 + ".to_vec()));
}

#[test]
fn evaluating_a_postfix_stream_directly() {
    assert_eq!(
        evaluate_postfix(b"3 4 2 * + "),
        Ok(Value::Finite { neg: false, num: 11, den: 1 })
    );
    assert_eq!(
        evaluate_postfix(b"5 &3 * "),
        Ok(Value::Finite { neg: true, num: 15, den: 1 })
    );
}

#[test]
fn evaluation_result_is_the_stack_top() {
    // Two numbers and no operator leave both on the stack; the top wins.
    assert_eq!(
        evaluate_postfix(b"3 4 "),
        Ok(Value::Finite { neg: false, num: 4, den: 1 })
    );
    assert_eq!(evaluate_postfix(b"   "), Err(CalcError::NoResult));
}

#[test]
fn pop_operators_respects_precedence() {
    // '+' arriving over ['*', '^'] pops both; over ['('] it pops nothing.
    let mut stack = vec![b'*', b'^'];
    let mut out = Vec::new();
    pop_operators(&mut stack, &mut out, b'+');
    assert_eq!(stack, Vec::<u8>::new());
    assert_eq!(out, b"^ * ".to_vec());

    let mut stack = vec![b'(', b'*'];
    let mut out = Vec::new();
    pop_operators(&mut stack, &mut out, b'^');
    assert_eq!(stack, vec![b'(', b'*']);
    assert_eq!(out, Vec::<u8>::new());
}

#[test]
fn pop_parenthesis_drains_to_the_open_paren() {
    let mut stack = vec![b'+', b'(', b'*', b'^'];
    let mut out = Vec::new();
    pop_parenthesis(&mut stack, &mut out);
    assert_eq!(stack, vec![b'+']);
    assert_eq!(out, b"^ * ".to_vec());
}

#[test]
fn operator_classification() {
    assert!(is_add_or_sub(b'+'));
    assert!(is_add_or_sub(b'-'));
    assert!(!is_add_or_sub(b'*'));
    assert!(is_multi_or_div(b'*'));
    assert!(is_multi_or_div(b'/'));
    assert!(is_multi_or_div(b'%'));
    assert!(!is_multi_or_div(b'+'));
    assert!(is_symbol(b'^'));
    assert!(is_symbol(b'!'));
    assert!(!is_symbol(b'('));
    assert!(!is_symbol(b'3'));
}

#[test]
fn precedence_table() {
    assert_eq!(precedence_level(b'+'), 1);
    assert_eq!(precedence_level(b'-'), 1);
    assert_eq!(precedence_level(b'*'), 2);
    assert_eq!(precedence_level(b'/'), 2);
    assert_eq!(precedence_level(b'%'), 2);
    assert_eq!(precedence_level(b'^'), 3);
    assert_eq!(precedence_level(b'!'), 4);
    assert_eq!(precedence_level(b'('), 5);
    assert_eq!(precedence_level(b'x'), 5);
}
