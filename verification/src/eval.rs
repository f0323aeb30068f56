//! The postfix evaluator: folds a postfix byte stream over a value stack.
//!
//! A digit run becomes one number; a pending negation marker flips its sign
//! as it is pushed. A binary operator pops the right operand, then the left
//! one — a missing left operand counts as zero, which is what turns a
//! leading '-' into subtraction from zero. The factorial operator pops its
//! operand and the value below it, pushes that lower value back (zero when
//! there was none) and then the factorial: a quirk of the stack discipline
//! that callers observe and that is kept as specified.

use vstd::prelude::*;

use crate::errors::CalcError;
use crate::symbols::{
    is_digit, is_symbol, spec_is_digit, spec_is_symbol, BANG, DIGIT_ZERO, MINUS,
    NEGATION_MARKER, PERCENT, PLUS, SLASH, STAR,
};
use crate::value::{
    add_values, div_values, factorial, mul_values, pow, rem_values, spec_add_values,
    spec_div_values, spec_factorial_value, spec_gt_zero, spec_mul_values, spec_pow,
    spec_rem_values, spec_sub_values, spec_trunc_exponent, spec_zero, sub_values, trunc_exponent,
    value_gt_zero, zero_value, Value, MAX_MAG,
};

verus! {

/// The number a digit run stands for, with the sign a pending negation
/// marker left behind; zero never carries the sign.
pub open spec fn mk_num(neg: bool, n: u64) -> Value {
    Value::Finite { neg: neg && n != 0, num: n, den: 1 }
}

/// Pushes the number being accumulated, if any, and clears the pending
/// sign: the stack and the sign flag after a digit run ends.
pub open spec fn spec_flush(stack: Seq<Value>, neg: bool, cur: Option<u64>) -> (Seq<Value>, bool) {
    match cur {
        Option::None => (stack, neg),
        Option::Some(n) => (stack.push(mk_num(neg, n)), false),
    }
}

/// What one binary operator byte computes from its left and right operand.
/// The power operator truncates its right operand to an integer exponent
/// and remembers whether the untruncated exponent was positive.
pub open spec fn spec_apply_binary(op: u8, left: Value, right: Value) -> Result<
    Value,
    CalcError,
> {
    if op == PLUS {
        spec_add_values(left, right)
    } else if op == MINUS {
        spec_sub_values(left, right)
    } else if op == STAR {
        spec_mul_values(left, right)
    } else if op == SLASH {
        spec_div_values(left, right)
    } else if op == PERCENT {
        spec_rem_values(left, right)
    } else {
        spec_pow(left, spec_trunc_exponent(right), spec_gt_zero(right))
    }
}

/// One state of the evaluation: position `i`, the value stack, the pending
/// negation flag, and the digit run being accumulated, if any.
pub open spec fn spec_eval_from(
    s: Seq<u8>,
    i: int,
    stack: Seq<Value>,
    neg: bool,
    cur: Option<u64>,
) -> Result<Value, CalcError>
    decreases s.len() - i,
{
    if i < 0 || i >= s.len() {
        let f = spec_flush(stack, neg, cur);
        if f.0.len() == 0 {
            Err(CalcError::NoResult)
        } else {
            Ok(f.0.last())
        }
    } else {
        let b = s[i];
        if spec_is_digit(b) {
            let prev: int = match cur {
                Option::None => 0,
                Option::Some(n) => n as int,
            };
            let n2 = prev * 10 + (b - DIGIT_ZERO);
            if n2 > MAX_MAG as int {
                Err(CalcError::Overflow)
            } else {
                spec_eval_from(s, i + 1, stack, neg, Some(n2 as u64))
            }
        } else {
            let f = spec_flush(stack, neg, cur);
            let st = f.0;
            let ng = f.1;
            if b == NEGATION_MARKER {
                spec_eval_from(s, i + 1, st, true, None)
            } else if spec_is_symbol(b) {
                if st.len() == 0 {
                    Err(CalcError::StackUnderflow)
                } else {
                    let right = st.last();
                    let left = if st.len() >= 2 {
                        st[st.len() - 2]
                    } else {
                        spec_zero()
                    };
                    let rest = if st.len() >= 2 {
                        st.drop_last().drop_last()
                    } else {
                        st.drop_last()
                    };
                    if b == BANG {
                        match spec_factorial_value(right) {
                            Ok(fv) => spec_eval_from(s, i + 1, rest.push(left).push(fv), ng, None),
                            Err(e) => Err(e),
                        }
                    } else {
                        match spec_apply_binary(b, left, right) {
                            Ok(v) => spec_eval_from(s, i + 1, rest.push(v), ng, None),
                            Err(e) => Err(e),
                        }
                    }
                }
            } else {
                spec_eval_from(s, i + 1, st, ng, None)
            }
        }
    }
}

/// The value a postfix stream evaluates to: the top of the stack once the
/// stream is consumed, or the error met on the way.
pub open spec fn spec_evaluate_postfix(s: Seq<u8>) -> Result<Value, CalcError> {
    spec_eval_from(s, 0, Seq::<Value>::empty(), false, None)
}

/// The number a digit run stands for, as a runtime value.
fn make_num(neg: bool, n: u64) -> (r: Value)
    requires
        n <= MAX_MAG,
    ensures
        r == mk_num(neg, n),
        r.wf(),
{
    Value::Finite { neg: neg && n != 0, num: n, den: 1 }
}

/// Applies one binary operator byte to its two operands.
fn apply_binary(op: u8, left: Value, right: Value) -> (r: Result<Value, CalcError>)
    requires
        left.wf(),
        right.wf(),
        spec_is_symbol(op),
        op != BANG,
    ensures
        r == spec_apply_binary(op, left, right),
        r matches Ok(v) ==> v.wf(),
{
    if op == PLUS {
        add_values(left, right)
    } else if op == MINUS {
        sub_values(left, right)
    } else if op == STAR {
        mul_values(left, right)
    } else if op == SLASH {
        div_values(left, right)
    } else if op == PERCENT {
        rem_values(left, right)
    } else {
        let e = trunc_exponent(right);
        let positive = value_gt_zero(right);
        pow(left, e, positive)
    }
}

/// Evaluates a postfix byte stream to one value, scanning left to right
/// with a value stack. The result is the top of the stack at the end; an
/// operator that finds the stack empty, or a stream that leaves it empty,
/// is reported.
pub fn evaluate_postfix(postfix: &[u8]) -> (r: Result<Value, CalcError>)
    ensures
        r matches Ok(v) ==> spec_evaluate_postfix(postfix@) == Ok::<Value, CalcError>(v)
            && v.wf(),
        r matches Err(e) ==> spec_evaluate_postfix(postfix@) == Err::<Value, CalcError>(e),
{
    let ghost s = postfix@;
    let mut stack: Vec<Value> = Vec::new();
    let mut neg: bool = false;
    let mut cur: Option<u64> = None;
    let mut i: usize = 0;
    proof {
        assert(stack@ =~= Seq::<Value>::empty());
    }
    while i < postfix.len()
        invariant
            s == postfix@,
            i <= s.len(),
            forall|k: int| 0 <= k < stack@.len() ==> stack@[k].wf(),
            cur matches Some(n) ==> n <= MAX_MAG,
            spec_eval_from(s, i as int, stack@, neg, cur) == spec_evaluate_postfix(s),
        decreases s.len() - i,
    {
        let ghost pre_stack = stack@;
        let ghost pre_neg = neg;
        let ghost pre_cur = cur;
        let b = postfix[i];
        if is_digit(b) {
            let prev: u64 = match cur {
                Some(n) => n,
                None => 0,
            };
            let wide: u128 = (prev as u128) * 10 + ((b - DIGIT_ZERO) as u128);
            if wide > MAX_MAG as u128 {
                return Err(CalcError::Overflow);
            }
            cur = Some(wide as u64);
        } else {
            match cur {
                Some(n) => {
                    stack.push(make_num(neg, n));
                    neg = false;
                    cur = None;
                },
                None => {},
            }
            let ghost flushed = spec_flush(pre_stack, pre_neg, pre_cur);
            proof {
                assert(stack@ == flushed.0);
                assert(neg == flushed.1);
            }
            if b == NEGATION_MARKER {
                neg = true;
            } else if is_symbol(b) {
                let right = match stack.pop() {
                    Some(v) => v,
                    None => {
                        return Err(CalcError::StackUnderflow);
                    },
                };
                let left = match stack.pop() {
                    Some(v) => v,
                    None => zero_value(),
                };
                if b == BANG {
                    stack.push(left);
                    match factorial(right) {
                        Ok(fv) => {
                            stack.push(fv);
                        },
                        Err(e) => {
                            return Err(e);
                        },
                    }
                } else {
                    match apply_binary(b, left, right) {
                        Ok(v) => {
                            stack.push(v);
                        },
                        Err(e) => {
                            return Err(e);
                        },
                    }
                }
            } else {
            }
        }
        proof {
            assert(spec_eval_from(s, i as int, pre_stack, pre_neg, pre_cur) == spec_eval_from(
                s,
                i as int + 1,
                stack@,
                neg,
                cur,
            ));
        }
        i = i + 1;
    }
    match cur {
        Some(n) => {
            stack.push(make_num(neg, n));
        },
        None => {},
    }
    match stack.pop() {
        Some(v) => Ok(v),
        None => Err(CalcError::NoResult),
    }
}

} // verus!
