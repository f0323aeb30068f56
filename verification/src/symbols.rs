//! The bytes an equation is made of, and the precedence levels of the
//! operator bytes.

use vstd::prelude::*;

verus! {

/// ASCII '+'.
pub const PLUS: u8 = 43;

/// ASCII '-'.
pub const MINUS: u8 = 45;

/// ASCII '*'.
pub const STAR: u8 = 42;

/// ASCII '/'.
pub const SLASH: u8 = 47;

/// ASCII '%'.
pub const PERCENT: u8 = 37;

/// ASCII '^'.
pub const CARET: u8 = 94;

/// ASCII '!'.
pub const BANG: u8 = 33;

/// ASCII '('.
pub const OPEN_PAREN: u8 = 40;

/// ASCII ')'.
pub const CLOSE_PAREN: u8 = 41;

/// ASCII space.
pub const SPACE: u8 = 32;

/// ASCII horizontal tab.
pub const TAB: u8 = 9;

/// ASCII line feed.
pub const NEWLINE: u8 = 10;

/// ASCII '&', the marker a pending unary negation is written as in the
/// postfix stream.
pub const NEGATION_MARKER: u8 = 38;

/// ASCII '0'.
pub const DIGIT_ZERO: u8 = 48;

/// ASCII '9'.
pub const DIGIT_NINE: u8 = 57;

/// True of the ASCII digit bytes '0' through '9'.
pub open spec fn spec_is_digit(b: u8) -> bool {
    DIGIT_ZERO <= b <= DIGIT_NINE
}

/// True of the additive operator bytes '+' and '-'.
pub open spec fn spec_is_add_or_sub(symbol: u8) -> bool {
    symbol == PLUS || symbol == MINUS
}

/// True of the multiplicative operator bytes '*', '/' and '%'.
pub open spec fn spec_is_multi_or_div(symbol: u8) -> bool {
    symbol == STAR || symbol == SLASH || symbol == PERCENT
}

/// True of every operator byte: + - * / % ^ !.
pub open spec fn spec_is_symbol(symbol: u8) -> bool {
    spec_is_multi_or_div(symbol) || spec_is_add_or_sub(symbol) || symbol == CARET || symbol
        == BANG
}

/// The precedence rank of an operator byte. Higher binds tighter:
/// additive 1 < multiplicative 2 < power 3 < factorial 4. Every other byte
/// gets the sentinel 5, used when an operator is compared against an empty
/// stack or a non-operator top.
pub open spec fn spec_precedence_level(symbol: u8) -> u8 {
    if spec_is_add_or_sub(symbol) {
        1
    } else if spec_is_multi_or_div(symbol) {
        2
    } else if symbol == CARET {
        3
    } else if symbol == BANG {
        4
    } else {
        5
    }
}

/// Is our byte an ASCII digit.
pub fn is_digit(b: u8) -> (r: bool)
    ensures
        r == spec_is_digit(b),
{
    DIGIT_ZERO <= b && b <= DIGIT_NINE
}

/// Is our symbol addition or subtraction.
pub fn is_add_or_sub(symbol: u8) -> (r: bool)
    ensures
        r == spec_is_add_or_sub(symbol),
{
    symbol == PLUS || symbol == MINUS
}

/// Is our symbol multiplication, division or modulo.
pub fn is_multi_or_div(symbol: u8) -> (r: bool)
    ensures
        r == spec_is_multi_or_div(symbol),
{
    symbol == STAR || symbol == SLASH || symbol == PERCENT
}

/// Is our symbol an operator at all.
pub fn is_symbol(symbol: u8) -> (r: bool)
    ensures
        r == spec_is_symbol(symbol),
{
    is_multi_or_div(symbol) || is_add_or_sub(symbol) || symbol == CARET || symbol == BANG
}

/// Returns the precedence level of an operator byte.
pub fn precedence_level(symbol: u8) -> (r: u8)
    ensures
        r == spec_precedence_level(symbol),
{
    if is_add_or_sub(symbol) {
        1
    } else if is_multi_or_div(symbol) {
        2
    } else if symbol == CARET {
        3
    } else if symbol == BANG {
        4
    } else {
        5
    }
}

} // verus!
