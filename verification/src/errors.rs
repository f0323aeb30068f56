//! The ways an evaluation can fail.

use vstd::prelude::*;

verus! {

/// Everything that can go wrong while an equation is checked, converted and
/// evaluated. Each stage reports its own kinds and leaves the rest alone.
#[derive(Clone, Copy, Debug, PartialEq, Eq, Structural)]
pub enum CalcError {
    /// A ')' without a matching '(', or a '(' left open at the end.
    UnbalancedParentheses,
    /// A byte that is no digit, operator, parenthesis or whitespace; the
    /// offending byte is carried along.
    InvalidCharacter(u8),
    /// An operator found no operand at all on the value stack.
    StackUnderflow,
    /// The postfix stream left no value on the stack.
    NoResult,
    /// An exact numerator or denominator outgrew the largest magnitude a
    /// value can carry.
    Overflow,
    /// Factorial of a negative or non-integral value, which the recursive
    /// definition never finishes on.
    FactorialDomain,
}

} // verus!
