//! An arithmetic expression evaluator.
//!
//! An equation arrives as a sequence of ASCII bytes. The pipeline has three
//! stages, each a pure function over plain values:
//!
//! 1. `balance::parenthesis_check` decides whether the parentheses nest.
//! 2. `postfix::infix_to_postfix` turns the infix equation into a postfix
//!    byte stream with a shunting-yard operator stack.
//! 3. `eval::evaluate_postfix` folds the postfix stream over a value stack.
//!
//! Values are exact sign-and-magnitude rationals with the special values
//! positive infinity, negative infinity and not-a-number, so that division
//! and negative exponents stay exact (see `value::Value`).

use vstd::prelude::*;

pub mod balance;
pub mod errors;
pub mod eval;
pub mod postfix;
pub mod symbols;
pub mod value;

verus! {

/// The result of running the whole pipeline on one equation.
pub open spec fn spec_evaluate(s: Seq<u8>) -> Result<crate::value::Value, crate::errors::CalcError> {
    if !crate::balance::spec_balanced(s) {
        Err(crate::errors::CalcError::UnbalancedParentheses)
    } else {
        match crate::postfix::spec_to_postfix(s) {
            Err(e) => Err(e),
            Ok(p) => crate::eval::spec_evaluate_postfix(p),
        }
    }
}

/// Runs the whole pipeline on one equation: checks the parenthesis balance,
/// converts to postfix, and evaluates the postfix stream.
pub fn evaluate_equation(equation: &[u8]) -> (r: Result<crate::value::Value, crate::errors::CalcError>)
    ensures
        r == spec_evaluate(equation@),
        r matches Ok(v) ==> v.wf(),
{
    if !crate::balance::parenthesis_check(equation) {
        Err(crate::errors::CalcError::UnbalancedParentheses)
    } else {
        match crate::postfix::infix_to_postfix(equation) {
            Err(e) => Err(e),
            Ok(p) => crate::eval::evaluate_postfix(p.as_slice()),
        }
    }
}

/// The result of an evaluation is a function of the equation bytes alone:
/// two equal equations always evaluate to the same result, whatever happened
/// between the two calls. Nothing persists from one evaluation to the next.
pub proof fn lemma_evaluation_deterministic(s1: Seq<u8>, s2: Seq<u8>)
    requires
        s1 == s2,
    ensures
        spec_evaluate(s1) == spec_evaluate(s2),
{
}

} // verus!
