//! The infix-to-postfix converter: a shunting-yard pass over the equation
//! bytes.
//!
//! Numbers go straight to the output, each digit run followed by one space
//! as a separator. Operators wait on a stack until an incoming operator of
//! lower or equal precedence, a closing parenthesis or the end of the
//! equation pops them. A '-' right after another operator is unary negation
//! and is written to the output as the marker byte '&' instead of being
//! stacked.

use vstd::prelude::*;

use crate::errors::CalcError;
use crate::symbols::{
    is_digit, is_symbol, precedence_level, spec_is_digit, spec_is_symbol, spec_precedence_level,
    CLOSE_PAREN, MINUS, NEGATION_MARKER, NEWLINE, OPEN_PAREN, SPACE, TAB,
};

verus! {

/// What popping operators ahead of `sym` leaves and emits: the stack keeps
/// losing its top while that top is an operator of precedence at least that
/// of `sym`; each popped operator goes to the output with a separator.
pub open spec fn spec_drain_ops(stack: Seq<u8>, sym: u8) -> (Seq<u8>, Seq<u8>)
    decreases stack.len(),
{
    if stack.len() == 0 || stack.last() == OPEN_PAREN || !(spec_precedence_level(sym)
        <= spec_precedence_level(stack.last())) {
        (stack, Seq::<u8>::empty())
    } else {
        let r = spec_drain_ops(stack.drop_last(), sym);
        (r.0, seq![stack.last(), SPACE] + r.1)
    }
}

/// What a closing parenthesis leaves and emits: every operator above the
/// nearest '(' goes to the output with a separator, and that '(' is
/// discarded.
pub open spec fn spec_drain_paren(stack: Seq<u8>) -> (Seq<u8>, Seq<u8>)
    decreases stack.len(),
{
    if stack.len() == 0 {
        (stack, Seq::<u8>::empty())
    } else if stack.last() == OPEN_PAREN {
        (stack.drop_last(), Seq::<u8>::empty())
    } else {
        let r = spec_drain_paren(stack.drop_last());
        (r.0, seq![stack.last(), SPACE] + r.1)
    }
}

/// What the end of the scan emits: the whole stack, top first, each entry
/// followed by a separator.
pub open spec fn spec_drain_all(stack: Seq<u8>) -> Seq<u8>
    decreases stack.len(),
{
    if stack.len() == 0 {
        Seq::<u8>::empty()
    } else {
        seq![stack.last(), SPACE] + spec_drain_all(stack.drop_last())
    }
}

/// One state of the scan: position `i`, the operator stack, the output so
/// far, and whether the last classified byte was an operator (which makes a
/// following '-' unary).
pub open spec fn spec_conv(s: Seq<u8>, i: int, stack: Seq<u8>, out: Seq<u8>, lws: bool) -> Result<
    Seq<u8>,
    CalcError,
>
    decreases s.len() - i,
{
    if i < 0 || i >= s.len() {
        Ok(out + spec_drain_all(stack))
    } else {
        let b = s[i];
        if lws && b == MINUS {
            spec_conv(s, i + 1, stack, out.push(NEGATION_MARKER), false)
        } else if spec_is_digit(b) {
            let out2 = if i + 1 < s.len() && spec_is_digit(s[i + 1]) {
                out.push(b)
            } else {
                out.push(b).push(SPACE)
            };
            spec_conv(s, i + 1, stack, out2, false)
        } else if b == OPEN_PAREN {
            spec_conv(s, i + 1, stack.push(b), out, lws)
        } else if b == CLOSE_PAREN {
            if stack.contains(OPEN_PAREN) {
                let r = spec_drain_paren(stack);
                spec_conv(s, i + 1, r.0, out + r.1, lws)
            } else {
                Err(CalcError::UnbalancedParentheses)
            }
        } else if spec_is_symbol(b) {
            let r = spec_drain_ops(stack, b);
            spec_conv(s, i + 1, r.0.push(b), out + r.1, true)
        } else if b == SPACE || b == TAB || b == NEWLINE {
            spec_conv(s, i + 1, stack, out, lws)
        } else {
            Err(CalcError::InvalidCharacter(b))
        }
    }
}

/// The postfix form of an equation, or the first invalid byte.
pub open spec fn spec_to_postfix(s: Seq<u8>) -> Result<Seq<u8>, CalcError> {
    spec_conv(s, 0, Seq::<u8>::empty(), Seq::<u8>::empty(), false)
}

/// Pops every operator that must be emitted before `symbol` can be pushed:
/// the stack top while it is an operator (not a '(') whose precedence is at
/// least that of `symbol`. Each popped operator lands on the postfix output
/// with a separator.
pub fn pop_operators(stack: &mut Vec<u8>, postfix: &mut Vec<u8>, symbol: u8)
    ensures
        final(stack)@ == spec_drain_ops(old(stack)@, symbol).0,
        final(postfix)@ == old(postfix)@ + spec_drain_ops(old(stack)@, symbol).1,
{
    proof {
        assert(postfix@ + spec_drain_ops(stack@, symbol).1 == old(postfix)@ + spec_drain_ops(
            old(stack)@,
            symbol,
        ).1);
    }
    while !stack.is_empty() && stack[stack.len() - 1] != OPEN_PAREN && precedence_level(symbol)
        <= precedence_level(stack[stack.len() - 1])
        invariant
            spec_drain_ops(stack@, symbol).0 == spec_drain_ops(old(stack)@, symbol).0,
            postfix@ + spec_drain_ops(stack@, symbol).1 == old(postfix)@ + spec_drain_ops(
                old(stack)@,
                symbol,
            ).1,
        decreases stack@.len(),
    {
        let ghost pre = stack@;
        let ghost pre_post = postfix@;
        let top = match stack.pop() {
            Some(t) => t,
            None => {
                proof {
                    assert(false);
                }
                0
            },
        };
        postfix.push(top);
        postfix.push(SPACE);
        proof {
            assert(spec_drain_ops(pre, symbol).1 == seq![top, SPACE] + spec_drain_ops(
                stack@,
                symbol,
            ).1);
            assert((pre_post + seq![top, SPACE]) + spec_drain_ops(stack@, symbol).1
                =~= pre_post + (seq![top, SPACE] + spec_drain_ops(stack@, symbol).1));
        }
    }
    proof {
        assert(spec_drain_ops(stack@, symbol).0 == stack@);
        assert(spec_drain_ops(stack@, symbol).1 == Seq::<u8>::empty());
        assert(postfix@ + Seq::<u8>::empty() =~= postfix@);
    }
}

/// Pops everything between the stack top and the nearest '(' to the postfix
/// output, each entry with a separator, and discards that '(' itself.
pub fn pop_parenthesis(stack: &mut Vec<u8>, postfix: &mut Vec<u8>)
    ensures
        final(stack)@ == spec_drain_paren(old(stack)@).0,
        final(postfix)@ == old(postfix)@ + spec_drain_paren(old(stack)@).1,
{
    while !stack.is_empty() && stack[stack.len() - 1] != OPEN_PAREN
        invariant
            spec_drain_paren(stack@).0 == spec_drain_paren(old(stack)@).0,
            postfix@ + spec_drain_paren(stack@).1 == old(postfix)@ + spec_drain_paren(
                old(stack)@,
            ).1,
        decreases stack@.len(),
    {
        let ghost pre = stack@;
        let ghost pre_post = postfix@;
        let top = match stack.pop() {
            Some(t) => t,
            None => {
                proof {
                    assert(false);
                }
                0
            },
        };
        postfix.push(top);
        postfix.push(SPACE);
        proof {
            assert(spec_drain_paren(pre).1 == seq![top, SPACE] + spec_drain_paren(stack@).1);
            assert((pre_post + seq![top, SPACE]) + spec_drain_paren(stack@).1
                =~= pre_post + (seq![top, SPACE] + spec_drain_paren(stack@).1));
        }
    }
    if !stack.is_empty() {
        stack.pop();
    }
    proof {
        assert(postfix@ + Seq::<u8>::empty() =~= postfix@);
    }
}

/// Does the operator stack still hold an open parenthesis for a ')' to
/// match?
fn stack_has_open(stack: &Vec<u8>) -> (r: bool)
    ensures
        r == stack@.contains(OPEN_PAREN),
{
    let mut i: usize = 0;
    while i < stack.len()
        invariant
            i <= stack@.len(),
            forall|k: int| 0 <= k < i ==> stack@[k] != OPEN_PAREN,
        decreases stack@.len() - i,
    {
        if stack[i] == OPEN_PAREN {
            proof {
                assert(stack@[i as int] == OPEN_PAREN);
            }
            return true;
        }
        i = i + 1;
    }
    false
}

/// Converts an infix equation to its postfix byte stream. The first byte
/// that is no digit, operator, parenthesis or whitespace is reported as an
/// invalid character; a ')' whose matching '(' never reached the operator
/// stack is reported as unbalanced. A leftover '(' at the end is the
/// balance checker's business, not re-checked here: it is drained to the
/// output like an operator.
pub fn infix_to_postfix(equation: &[u8]) -> (r: Result<Vec<u8>, CalcError>)
    ensures
        r matches Ok(v) ==> spec_to_postfix(equation@) == Ok::<Seq<u8>, CalcError>(v@),
        r matches Err(e) ==> spec_to_postfix(equation@) == Err::<Seq<u8>, CalcError>(e),
{
    let ghost s = equation@;
    let mut postfix: Vec<u8> = Vec::new();
    let mut stack: Vec<u8> = Vec::new();
    let mut last_was_symbol: bool = false;
    let mut i: usize = 0;
    proof {
        assert(postfix@ =~= Seq::<u8>::empty());
        assert(stack@ =~= Seq::<u8>::empty());
    }
    while i < equation.len()
        invariant
            s == equation@,
            i <= s.len(),
            spec_conv(s, i as int, stack@, postfix@, last_was_symbol) == spec_to_postfix(s),
        decreases s.len() - i,
    {
        let ghost pre_stack = stack@;
        let ghost pre_post = postfix@;
        let ghost pre_lws = last_was_symbol;
        let b = equation[i];
        if last_was_symbol && b == MINUS {
            postfix.push(NEGATION_MARKER);
            last_was_symbol = false;
        } else if is_digit(b) {
            postfix.push(b);
            if i + 1 >= equation.len() || !is_digit(equation[i + 1]) {
                postfix.push(SPACE);
            }
            last_was_symbol = false;
        } else if b == OPEN_PAREN {
            stack.push(b);
        } else if b == CLOSE_PAREN {
            if !stack_has_open(&stack) {
                proof {
                    assert(spec_conv(s, i as int, pre_stack, pre_post, pre_lws) == Err::<
                        Seq<u8>,
                        CalcError,
                    >(CalcError::UnbalancedParentheses));
                }
                return Err(CalcError::UnbalancedParentheses);
            }
            pop_parenthesis(&mut stack, &mut postfix);
        } else if is_symbol(b) {
            pop_operators(&mut stack, &mut postfix, b);
            stack.push(b);
            last_was_symbol = true;
        } else if b == SPACE || b == TAB || b == NEWLINE {
        } else {
            proof {
                assert(spec_conv(s, i as int, pre_stack, pre_post, pre_lws) == Err::<
                    Seq<u8>,
                    CalcError,
                >(CalcError::InvalidCharacter(b)));
            }
            return Err(CalcError::InvalidCharacter(b));
        }
        proof {
            assert(spec_conv(s, i as int, pre_stack, pre_post, pre_lws) == spec_conv(
                s,
                i as int + 1,
                stack@,
                postfix@,
                last_was_symbol,
            ));
        }
        i = i + 1;
    }
    while !stack.is_empty()
        invariant
            Ok::<Seq<u8>, CalcError>(postfix@ + spec_drain_all(stack@)) == spec_to_postfix(s),
        decreases stack@.len(),
    {
        let ghost pre = stack@;
        let ghost pre_post = postfix@;
        let top = match stack.pop() {
            Some(t) => t,
            None => {
                proof {
                    assert(false);
                }
                0
            },
        };
        postfix.push(top);
        postfix.push(SPACE);
        proof {
            assert(spec_drain_all(pre) == seq![top, SPACE] + spec_drain_all(stack@));
            assert(postfix@ =~= pre_post + seq![top, SPACE]);
            assert((pre_post + seq![top, SPACE]) + spec_drain_all(stack@) =~= pre_post + (seq![
                top,
                SPACE,
            ] + spec_drain_all(stack@)));
        }
    }
    proof {
        assert(spec_drain_all(stack@) == Seq::<u8>::empty());
        assert(postfix@ + spec_drain_all(stack@) =~= postfix@);
    }
    Ok(postfix)
}

} // verus!
