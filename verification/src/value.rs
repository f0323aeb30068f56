//! The numbers the evaluator works on: exact sign-and-magnitude rationals,
//! plus the three special values that division keeps producing once a zero
//! or an infinity enters the computation.
//!
//! A finite value is `(-1)^neg * num / den`. Fractions are not reduced; a
//! numerator or denominator that outgrows `MAX_MAG` is reported as an
//! `Overflow` error rather than rounded, so every result that does come out
//! is exact.

use vstd::prelude::*;

use crate::errors::CalcError;

verus! {

/// The largest magnitude a numerator or a denominator can carry.
pub const MAX_MAG: u64 = 0x7fff_ffff_ffff_ffff;

/// One value on the evaluator's stack.
#[derive(Clone, Copy, Debug, PartialEq, Eq, Structural)]
pub enum Value {
    /// `(-1)^neg * num / den`, exactly.
    Finite { neg: bool, num: u64, den: u64 },
    /// Positive infinity, as division of a nonzero value by zero yields it.
    PosInf,
    /// Negative infinity.
    NegInf,
    /// Not a number: zero divided by zero, and its other sources.
    NotANumber,
}

impl Value {
    /// Well-formedness: magnitudes in range, a positive denominator, and
    /// zero never carries a sign.
    pub open spec fn wf(self) -> bool {
        match self {
            Value::Finite { neg, num, den } => {
                &&& num <= MAX_MAG
                &&& 1 <= den <= MAX_MAG
                &&& (num == 0 ==> !neg)
            },
            _ => true,
        }
    }
}

/// Exactly zero.
pub open spec fn spec_zero() -> Value {
    Value::Finite { neg: false, num: 0, den: 1 }
}

/// Exactly one.
pub open spec fn spec_one() -> Value {
    Value::Finite { neg: false, num: 1, den: 1 }
}

/// The infinity of the given sign.
pub open spec fn mk_inf(neg: bool) -> Value {
    if neg {
        Value::NegInf
    } else {
        Value::PosInf
    }
}

/// True of a finite zero.
pub open spec fn spec_is_zero(v: Value) -> bool {
    match v {
        Value::Finite { num, .. } => num == 0,
        _ => false,
    }
}

/// The sign bit a value contributes to a product or quotient.
pub open spec fn spec_is_neg(v: Value) -> bool {
    match v {
        Value::Finite { neg, .. } => neg,
        Value::NegInf => true,
        _ => false,
    }
}

/// The numerator magnitude of a finite value.
pub open spec fn f_num(v: Value) -> int {
    match v {
        Value::Finite { num, .. } => num as int,
        _ => 0,
    }
}

/// The denominator of a finite value.
pub open spec fn f_den(v: Value) -> int {
    match v {
        Value::Finite { den, .. } => den as int,
        _ => 1,
    }
}

/// The sign of a finite value.
pub open spec fn f_neg(v: Value) -> bool {
    match v {
        Value::Finite { neg, .. } => neg,
        _ => false,
    }
}

/// Builds the finite value `(-1)^neg * num / den` when both magnitudes fit,
/// normalizing the sign of zero; `None` when the representation overflows.
pub open spec fn norm_fin(neg: bool, num: int, den: int) -> Option<Value> {
    if num <= MAX_MAG as int && den <= MAX_MAG as int {
        Some(Value::Finite { neg: neg && num != 0, num: num as u64, den: den as u64 })
    } else {
        None
    }
}

/// A missing representation is an `Overflow` error.
pub open spec fn lift(o: Option<Value>) -> Result<Value, CalcError> {
    match o {
        Some(v) => Ok(v),
        None => Err(CalcError::Overflow),
    }
}

/// Negation: flips the sign of everything but zero and not-a-number.
pub open spec fn spec_neg_value(v: Value) -> Value {
    match v {
        Value::NotANumber => Value::NotANumber,
        Value::PosInf => Value::NegInf,
        Value::NegInf => Value::PosInf,
        Value::Finite { neg, num, den } => Value::Finite { neg: !neg && num != 0, num, den },
    }
}

/// Addition. An infinity absorbs finite values; opposite infinities give
/// not-a-number; finite values add exactly over the common denominator.
pub open spec fn spec_add_values(a: Value, b: Value) -> Result<Value, CalcError> {
    if a is NotANumber || b is NotANumber {
        Ok(Value::NotANumber)
    } else if a is PosInf && b is NegInf {
        Ok(Value::NotANumber)
    } else if a is NegInf && b is PosInf {
        Ok(Value::NotANumber)
    } else if a is PosInf || b is PosInf {
        Ok(Value::PosInf)
    } else if a is NegInf || b is NegInf {
        Ok(Value::NegInf)
    } else {
        let p1 = f_num(a) * f_den(b);
        let p2 = f_num(b) * f_den(a);
        let dd = f_den(a) * f_den(b);
        if f_neg(a) == f_neg(b) {
            lift(norm_fin(f_neg(a), p1 + p2, dd))
        } else if p1 >= p2 {
            lift(norm_fin(f_neg(a), p1 - p2, dd))
        } else {
            lift(norm_fin(f_neg(b), p2 - p1, dd))
        }
    }
}

/// Subtraction is addition of the negated right operand, which is exact.
pub open spec fn spec_sub_values(a: Value, b: Value) -> Result<Value, CalcError> {
    spec_add_values(a, spec_neg_value(b))
}

/// Multiplication. An infinity times zero is not-a-number; otherwise an
/// infinity keeps absorbing, with the signs multiplied.
pub open spec fn spec_mul_values(a: Value, b: Value) -> Result<Value, CalcError> {
    if a is NotANumber || b is NotANumber {
        Ok(Value::NotANumber)
    } else if a is PosInf || a is NegInf || b is PosInf || b is NegInf {
        if spec_is_zero(a) || spec_is_zero(b) {
            Ok(Value::NotANumber)
        } else {
            Ok(mk_inf(spec_is_neg(a) != spec_is_neg(b)))
        }
    } else {
        lift(norm_fin(f_neg(a) != f_neg(b), f_num(a) * f_num(b), f_den(a) * f_den(b)))
    }
}

/// Division. Infinity over infinity is not-a-number; a nonzero value over
/// zero is the signed infinity, zero over zero not-a-number; a finite value
/// over an infinity is zero. There is no divide-by-zero error.
pub open spec fn spec_div_values(a: Value, b: Value) -> Result<Value, CalcError> {
    if a is NotANumber || b is NotANumber {
        Ok(Value::NotANumber)
    } else if a is PosInf || a is NegInf {
        if b is PosInf || b is NegInf {
            Ok(Value::NotANumber)
        } else {
            Ok(mk_inf(spec_is_neg(a) != spec_is_neg(b)))
        }
    } else if b is PosInf || b is NegInf {
        Ok(spec_zero())
    } else if spec_is_zero(b) {
        if spec_is_zero(a) {
            Ok(Value::NotANumber)
        } else {
            Ok(mk_inf(spec_is_neg(a)))
        }
    } else {
        lift(norm_fin(f_neg(a) != f_neg(b), f_num(a) * f_den(b), f_den(a) * f_num(b)))
    }
}

/// Remainder, with the sign of the dividend: `a - b * trunc(a / b)`.
/// A zero divisor or an infinite dividend gives not-a-number; a finite
/// value modulo an infinity is the value itself.
pub open spec fn spec_rem_values(a: Value, b: Value) -> Result<Value, CalcError> {
    if a is NotANumber || b is NotANumber {
        Ok(Value::NotANumber)
    } else if a is PosInf || a is NegInf {
        Ok(Value::NotANumber)
    } else if b is PosInf || b is NegInf {
        Ok(a)
    } else if spec_is_zero(b) {
        Ok(Value::NotANumber)
    } else {
        let y = f_num(a) * f_den(b);
        let x = f_num(b) * f_den(a);
        let dd = f_den(a) * f_den(b);
        lift(norm_fin(f_neg(a), y % x, dd))
    }
}

/// True when the value compares strictly greater than zero; not-a-number
/// compares greater than nothing.
pub open spec fn spec_gt_zero(v: Value) -> bool {
    v is PosInf || (v is Finite && !f_neg(v) && f_num(v) > 0)
}

/// The value truncated toward zero to a 64-bit signed integer, saturating
/// at the type bounds for the infinities; not-a-number truncates to zero.
pub open spec fn spec_trunc_exponent(v: Value) -> int {
    if v is NotANumber {
        0
    } else if v is PosInf {
        i64::MAX as int
    } else if v is NegInf {
        i64::MIN as int
    } else {
        let q = f_num(v) / f_den(v);
        if f_neg(v) {
            -q
        } else {
            q
        }
    }
}

/// `base` multiplied into one `e` times: the power for a non-negative
/// integer exponent. Overflow of an intermediate product is reported.
pub open spec fn spec_pow_pos(base: Value, e: int) -> Result<Value, CalcError>
    decreases e,
{
    if e <= 0 {
        Ok(spec_one())
    } else {
        match spec_pow_pos(base, e - 1) {
            Ok(v) => spec_mul_values(base, v),
            Err(er) => Err(er),
        }
    }
}

/// The power as the evaluator applies it: for `positive` exponents the
/// product chain, otherwise the reciprocal of the chain on the negated
/// exponent.
pub open spec fn spec_pow(base: Value, e: int, positive: bool) -> Result<Value, CalcError> {
    if positive {
        spec_pow_pos(base, e)
    } else {
        match spec_pow_pos(base, -e) {
            Ok(v) => spec_div_values(spec_one(), v),
            Err(er) => Err(er),
        }
    }
}

/// `n!` for a non-negative integer `n`, as the product chain
/// `n * (n-1) * ... * 1`, with overflow reported.
pub open spec fn spec_factorial_nat(n: int) -> Result<Value, CalcError>
    decreases n,
{
    if n <= 0 {
        Ok(spec_one())
    } else {
        match spec_factorial_nat(n - 1) {
            Ok(v) => spec_mul_values(Value::Finite { neg: false, num: n as u64, den: 1 }, v),
            Err(er) => Err(er),
        }
    }
}

/// Factorial of a value: defined for finite, non-negative values whose
/// fraction is an exact integer. On anything else the recursive definition
/// never reaches its base case, so the domain error stands in for it.
pub open spec fn spec_factorial_value(v: Value) -> Result<Value, CalcError> {
    match v {
        Value::Finite { neg, num, den } => {
            if !neg && num % den == 0 {
                spec_factorial_nat(num as int / den as int)
            } else {
                Err(CalcError::FactorialDomain)
            }
        },
        _ => Err(CalcError::FactorialDomain),
    }
}

/// The signed numerator of a finite value: the value is exactly
/// `signed_num(v) / f_den(v)`.
pub open spec fn signed_num(v: Value) -> int {
    if f_neg(v) {
        -f_num(v)
    } else {
        f_num(v)
    }
}

/// Addition of finite values is the exact rational sum: when it yields a
/// value at all, that value is `a + b` as a fraction, by cross
/// multiplication.
pub proof fn lemma_add_is_exact(a: Value, b: Value, v: Value)
    requires
        a.wf(),
        b.wf(),
        a is Finite,
        b is Finite,
        spec_add_values(a, b) == Ok::<Value, CalcError>(v),
    ensures
        v is Finite,
        f_den(v) == f_den(a) * f_den(b),
        signed_num(v) == signed_num(a) * f_den(b) + signed_num(b) * f_den(a),
{
    let a1 = f_num(a);
    let b1 = f_num(b);
    let da = f_den(a);
    let db = f_den(b);
    let p1 = a1 * db;
    let p2 = b1 * da;
    assert(0 <= p1 && 0 <= p2) by (nonlinear_arith)
        requires
            p1 == a1 * db && p2 == b1 * da && 0 <= a1 && 0 <= b1 && 0 <= da && 0 <= db,
    ;
    if f_neg(a) == f_neg(b) {
        assert(signed_num(a) * db + signed_num(b) * da == (if f_neg(a) {
            -(p1 + p2)
        } else {
            p1 + p2
        })) by (nonlinear_arith)
            requires
                p1 == a1 * db && p2 == b1 * da && signed_num(a) == (if f_neg(a) {
                    -a1
                } else {
                    a1
                }) && signed_num(b) == (if f_neg(b) {
                    -b1
                } else {
                    b1
                }) && f_neg(a) == f_neg(b),
        ;
    } else {
        assert(signed_num(a) * db + signed_num(b) * da == (if f_neg(a) {
            p2 - p1
        } else {
            p1 - p2
        })) by (nonlinear_arith)
            requires
                p1 == a1 * db && p2 == b1 * da && signed_num(a) == (if f_neg(a) {
                    -a1
                } else {
                    a1
                }) && signed_num(b) == (if f_neg(b) {
                    -b1
                } else {
                    b1
                }) && f_neg(a) != f_neg(b),
        ;
    }
}

/// Negation of a finite value is exact: same denominator, the signed
/// numerator flipped.
pub proof fn lemma_neg_is_exact(v: Value)
    requires
        v.wf(),
        v is Finite,
    ensures
        spec_neg_value(v) is Finite,
        spec_neg_value(v).wf(),
        f_den(spec_neg_value(v)) == f_den(v),
        signed_num(spec_neg_value(v)) == -signed_num(v),
{
}

/// Subtraction of finite values is the exact rational difference, by cross
/// multiplication over the common denominator.
pub proof fn lemma_sub_is_exact(a: Value, b: Value, v: Value)
    requires
        a.wf(),
        b.wf(),
        a is Finite,
        b is Finite,
        spec_sub_values(a, b) == Ok::<Value, CalcError>(v),
    ensures
        v is Finite,
        f_den(v) == f_den(a) * f_den(b),
        signed_num(v) == signed_num(a) * f_den(b) - signed_num(b) * f_den(a),
{
    lemma_neg_is_exact(b);
    lemma_add_is_exact(a, spec_neg_value(b), v);
    assert((-signed_num(b)) * f_den(b) == -(signed_num(b) * f_den(b)) && (-signed_num(b)) * f_den(
        a,
    ) == -(signed_num(b) * f_den(a))) by (nonlinear_arith);
}

/// Multiplication of finite values is the exact rational product.
pub proof fn lemma_mul_is_exact(a: Value, b: Value, v: Value)
    requires
        a.wf(),
        b.wf(),
        a is Finite,
        b is Finite,
        spec_mul_values(a, b) == Ok::<Value, CalcError>(v),
    ensures
        v is Finite,
        f_den(v) == f_den(a) * f_den(b),
        signed_num(v) == signed_num(a) * signed_num(b),
{
    let a1 = f_num(a);
    let b1 = f_num(b);
    assert(0 <= a1 * b1 && signed_num(a) * signed_num(b) == (if f_neg(a) != f_neg(b) {
        -(a1 * b1)
    } else {
        a1 * b1
    })) by (nonlinear_arith)
        requires
            0 <= a1 && 0 <= b1 && signed_num(a) == (if f_neg(a) {
                -a1
            } else {
                a1
            }) && signed_num(b) == (if f_neg(b) {
                -b1
            } else {
                b1
            }),
    ;
}

/// Division of finite values by a nonzero finite value is the exact
/// rational quotient: `v == a / b` means `v * b == a`, by cross
/// multiplication.
pub proof fn lemma_div_is_exact(a: Value, b: Value, v: Value)
    requires
        a.wf(),
        b.wf(),
        a is Finite,
        b is Finite,
        !spec_is_zero(b),
        spec_div_values(a, b) == Ok::<Value, CalcError>(v),
    ensures
        v is Finite,
        signed_num(v) * (f_den(a) * signed_num(b)) == signed_num(a) * (f_den(b) * f_den(v)),
{
    let a1 = f_num(a);
    let b1 = f_num(b);
    let da = f_den(a);
    let db = f_den(b);
    assert(0 <= a1 * db && 0 <= da * b1) by (nonlinear_arith)
        requires
            0 <= a1 && 0 <= b1 && 0 <= da && 0 <= db,
    ;
    let sv = signed_num(v);
    let dv = f_den(v);
    assert(sv == (if f_neg(a) != f_neg(b) {
        -(a1 * db)
    } else {
        a1 * db
    }) && dv == da * b1);
    assert(sv * (da * signed_num(b)) == signed_num(a) * (db * dv)) by (nonlinear_arith)
        requires
            sv == (if f_neg(a) != f_neg(b) {
                -(a1 * db)
            } else {
                a1 * db
            }) && dv == da * b1 && signed_num(a) == (if f_neg(a) {
                -a1
            } else {
                a1
            }) && signed_num(b) == (if f_neg(b) {
                -b1
            } else {
                b1
            }),
    ;
}

/// The remainder of finite values is the exact remainder: its magnitude is
/// what is left of `|a|` after the truncated quotient of `|a|` by `|b|` is
/// taken out, it stays below `|b|`, and it carries the dividend's sign.
/// All magnitudes are compared over the common denominator
/// `f_den(a) * f_den(b)`.
pub proof fn lemma_rem_is_exact(a: Value, b: Value, v: Value)
    requires
        a.wf(),
        b.wf(),
        a is Finite,
        b is Finite,
        !spec_is_zero(b),
        spec_rem_values(a, b) == Ok::<Value, CalcError>(v),
    ensures
        v is Finite,
        f_den(v) == f_den(a) * f_den(b),
        ({
            let y = f_num(a) * f_den(b);
            let x = f_num(b) * f_den(a);
            f_num(v) == y - x * (y / x) && f_num(v) < x
        }),
        f_neg(v) ==> f_neg(a),
{
    let y = f_num(a) * f_den(b);
    let x = f_num(b) * f_den(a);
    assert(x >= 1 && y >= 0) by (nonlinear_arith)
        requires
            y == f_num(a) * f_den(b) && x == f_num(b) * f_den(a) && 0 <= f_num(a) && 1 <= f_num(b)
                && 1 <= f_den(a) && 1 <= f_den(b),
    ;
    vstd::arithmetic::div_mod::lemma_fundamental_div_mod(y, x);
    vstd::arithmetic::div_mod::lemma_mod_bound(y, x);
}

/// The product chain for a non-negative exponent computes the exact power:
/// when `spec_pow_pos` yields a value for a finite base, that value is
/// `base^e` as a fraction — numerator and denominator are the `e`-th powers
/// of the base's, and the sign alternates with them.
pub proof fn lemma_pow_pos_is_exact(base: Value, e: int, v: Value)
    requires
        base.wf(),
        base is Finite,
        0 <= e,
        spec_pow_pos(base, e) == Ok::<Value, CalcError>(v),
    ensures
        v is Finite,
        v.wf(),
        signed_num(v) == vstd::arithmetic::power::pow(signed_num(base), e as nat),
        f_den(v) == vstd::arithmetic::power::pow(f_den(base), e as nat),
    decreases e,
{
    if e == 0 {
        vstd::arithmetic::power::lemma_pow0(signed_num(base));
        vstd::arithmetic::power::lemma_pow0(f_den(base));
    } else {
        let prev = spec_pow_pos(base, e - 1);
        match prev {
            Ok(w) => {
                assert(spec_mul_values(base, w) == Ok::<Value, CalcError>(v));
                lemma_pow_pos_is_exact(base, e - 1, w);
                lemma_mul_is_exact(base, w, v);
                assert(signed_num(base) * signed_num(w) == vstd::arithmetic::power::pow(
                    signed_num(base),
                    e as nat,
                )) by {
                    vstd::arithmetic::power::lemma_pow1(signed_num(base));
                    vstd::arithmetic::power::lemma_pow_adds(signed_num(base), 1, (e - 1) as nat);
                }
                assert(f_den(base) * f_den(w) == vstd::arithmetic::power::pow(
                    f_den(base),
                    e as nat,
                )) by {
                    vstd::arithmetic::power::lemma_pow1(f_den(base));
                    vstd::arithmetic::power::lemma_pow_adds(f_den(base), 1, (e - 1) as nat);
                }
                assert(v.wf()) by {
                    assert(spec_mul_values(base, w) == lift(
                        norm_fin(
                            f_neg(base) != f_neg(w),
                            f_num(base) * f_num(w),
                            f_den(base) * f_den(w),
                        ),
                    ));
                    assert(1 <= f_den(v)) by (nonlinear_arith)
                        requires
                            f_den(v) == f_den(base) * f_den(w) && 1 <= f_den(base) && 1 <= f_den(
                                w,
                            ),
                    ;
                }
            },
            Err(_) => {
                assert(false);
            },
        }
    }
}

/// The factorial chain computes the exact factorial: when
/// `spec_factorial_nat` yields a value, that value is the integer `n!`,
/// positive and over denominator one.
pub open spec fn spec_fact_int(n: int) -> int
    decreases n,
{
    if n <= 0 {
        1
    } else {
        n * spec_fact_int(n - 1)
    }
}

/// See `spec_fact_int`: the value chain agrees with the integer factorial.
pub proof fn lemma_factorial_nat_is_exact(n: int, v: Value)
    requires
        0 <= n,
        n <= MAX_MAG,
        spec_factorial_nat(n) == Ok::<Value, CalcError>(v),
    ensures
        v is Finite,
        v.wf(),
        !f_neg(v),
        f_den(v) == 1,
        f_num(v) == spec_fact_int(n),
    decreases n,
{
    if n == 0 {
    } else {
        let prev = spec_factorial_nat(n - 1);
        match prev {
            Ok(w) => {
                lemma_factorial_nat_is_exact(n - 1, w);
                let step = Value::Finite { neg: false, num: n as u64, den: 1 };
                assert(step.wf());
                lemma_mul_is_exact(step, w, v);
            },
            Err(_) => {
                assert(false);
            },
        }
    }
}

/// Bounds of a product of two magnitudes in range.
proof fn lemma_mag_mul_bounds(x: int, y: int)
    requires
        0 <= x <= MAX_MAG as int,
        0 <= y <= MAX_MAG as int,
    ensures
        0 <= x * y <= (MAX_MAG as int) * (MAX_MAG as int),
        x * y < u128::MAX as int,
        x >= 1 && y >= 1 ==> x * y >= 1,
{
    assert(0 <= x * y <= (MAX_MAG as int) * (MAX_MAG as int) && x * y < u128::MAX as int && (x
        >= 1 && y >= 1 ==> x * y >= 1)) by (nonlinear_arith)
        requires
            0 <= x <= MAX_MAG as int,
            0 <= y <= MAX_MAG as int,
    ;
}

/// Exactly zero, as a runtime value.
pub fn zero_value() -> (r: Value)
    ensures
        r == spec_zero(),
        r.wf(),
{
    Value::Finite { neg: false, num: 0, den: 1 }
}

/// Exactly one, as a runtime value.
pub fn one_value() -> (r: Value)
    ensures
        r == spec_one(),
        r.wf(),
{
    Value::Finite { neg: false, num: 1, den: 1 }
}

/// Packs a sign and wide magnitudes into a finite value, or reports the
/// overflow.
fn finite_from_parts(neg: bool, num: u128, den: u128) -> (r: Result<Value, CalcError>)
    requires
        den >= 1,
    ensures
        r == lift(norm_fin(neg, num as int, den as int)),
        r matches Ok(v) ==> v.wf(),
{
    if num <= MAX_MAG as u128 && den <= MAX_MAG as u128 {
        Ok(Value::Finite { neg: neg && num != 0, num: num as u64, den: den as u64 })
    } else {
        Err(CalcError::Overflow)
    }
}

/// Negates a value.
pub fn neg_value(v: Value) -> (r: Value)
    ensures
        r == spec_neg_value(v),
        v.wf() ==> r.wf(),
{
    match v {
        Value::NotANumber => Value::NotANumber,
        Value::PosInf => Value::NegInf,
        Value::NegInf => Value::PosInf,
        Value::Finite { neg, num, den } => Value::Finite { neg: !neg && num != 0, num, den },
    }
}

/// Adds two values exactly.
pub fn add_values(a: Value, b: Value) -> (r: Result<Value, CalcError>)
    requires
        a.wf(),
        b.wf(),
    ensures
        r == spec_add_values(a, b),
        r matches Ok(v) ==> v.wf(),
{
    match (a, b) {
        (Value::NotANumber, _) => Ok(Value::NotANumber),
        (_, Value::NotANumber) => Ok(Value::NotANumber),
        (Value::PosInf, Value::NegInf) => Ok(Value::NotANumber),
        (Value::NegInf, Value::PosInf) => Ok(Value::NotANumber),
        (Value::PosInf, _) => Ok(Value::PosInf),
        (_, Value::PosInf) => Ok(Value::PosInf),
        (Value::NegInf, _) => Ok(Value::NegInf),
        (_, Value::NegInf) => Ok(Value::NegInf),
        (
            Value::Finite { neg: n1, num: a1, den: d1 },
            Value::Finite { neg: n2, num: a2, den: d2 },
        ) => {
            proof {
                lemma_mag_mul_bounds(a1 as int, d2 as int);
                lemma_mag_mul_bounds(a2 as int, d1 as int);
                lemma_mag_mul_bounds(d1 as int, d2 as int);
            }
            let p1: u128 = (a1 as u128) * (d2 as u128);
            let p2: u128 = (a2 as u128) * (d1 as u128);
            let dd: u128 = (d1 as u128) * (d2 as u128);
            if n1 == n2 {
                finite_from_parts(n1, p1 + p2, dd)
            } else if p1 >= p2 {
                finite_from_parts(n1, p1 - p2, dd)
            } else {
                finite_from_parts(n2, p2 - p1, dd)
            }
        },
    }
}

/// Subtracts the right value from the left one, as addition of the negated
/// right operand.
pub fn sub_values(a: Value, b: Value) -> (r: Result<Value, CalcError>)
    requires
        a.wf(),
        b.wf(),
    ensures
        r == spec_sub_values(a, b),
        r matches Ok(v) ==> v.wf(),
{
    add_values(a, neg_value(b))
}

/// Multiplies two values exactly.
pub fn mul_values(a: Value, b: Value) -> (r: Result<Value, CalcError>)
    requires
        a.wf(),
        b.wf(),
    ensures
        r == spec_mul_values(a, b),
        r matches Ok(v) ==> v.wf(),
{
    match (a, b) {
        (Value::NotANumber, _) => Ok(Value::NotANumber),
        (_, Value::NotANumber) => Ok(Value::NotANumber),
        (Value::PosInf, b2) => Ok(inf_times(false, b2)),
        (Value::NegInf, b2) => Ok(inf_times(true, b2)),
        (a2, Value::PosInf) => Ok(inf_times(false, a2)),
        (a2, Value::NegInf) => Ok(inf_times(true, a2)),
        (
            Value::Finite { neg: n1, num: a1, den: d1 },
            Value::Finite { neg: n2, num: a2, den: d2 },
        ) => {
            proof {
                lemma_mag_mul_bounds(a1 as int, a2 as int);
                lemma_mag_mul_bounds(d1 as int, d2 as int);
            }
            let nn: u128 = (a1 as u128) * (a2 as u128);
            let dd: u128 = (d1 as u128) * (d2 as u128);
            finite_from_parts(n1 != n2, nn, dd)
        },
    }
}

/// One infinite factor of the given sign against the other factor, which is
/// not not-a-number.
fn inf_times(inf_neg: bool, other: Value) -> (r: Value)
    requires
        !(other is NotANumber),
    ensures
        r == (if spec_is_zero(other) {
            Value::NotANumber
        } else {
            mk_inf(inf_neg != spec_is_neg(other))
        }),
{
    match other {
        Value::Finite { neg, num, .. } => {
            if num == 0 {
                Value::NotANumber
            } else if inf_neg != neg {
                Value::NegInf
            } else {
                Value::PosInf
            }
        },
        Value::NegInf => {
            if inf_neg {
                Value::PosInf
            } else {
                Value::NegInf
            }
        },
        _ => {
            if inf_neg {
                Value::NegInf
            } else {
                Value::PosInf
            }
        },
    }
}

/// Divides the left value by the right one exactly.
pub fn div_values(a: Value, b: Value) -> (r: Result<Value, CalcError>)
    requires
        a.wf(),
        b.wf(),
    ensures
        r == spec_div_values(a, b),
        r matches Ok(v) ==> v.wf(),
{
    match (a, b) {
        (Value::NotANumber, _) => Ok(Value::NotANumber),
        (_, Value::NotANumber) => Ok(Value::NotANumber),
        (Value::PosInf, Value::PosInf) => Ok(Value::NotANumber),
        (Value::PosInf, Value::NegInf) => Ok(Value::NotANumber),
        (Value::NegInf, Value::PosInf) => Ok(Value::NotANumber),
        (Value::NegInf, Value::NegInf) => Ok(Value::NotANumber),
        (Value::PosInf, Value::Finite { neg, .. }) => Ok(
            if neg {
                Value::NegInf
            } else {
                Value::PosInf
            },
        ),
        (Value::NegInf, Value::Finite { neg, .. }) => Ok(
            if neg {
                Value::PosInf
            } else {
                Value::NegInf
            },
        ),
        (Value::Finite { .. }, Value::PosInf) => Ok(zero_value()),
        (Value::Finite { .. }, Value::NegInf) => Ok(zero_value()),
        (
            Value::Finite { neg: n1, num: a1, den: d1 },
            Value::Finite { neg: n2, num: a2, den: d2 },
        ) => {
            if a2 == 0 {
                if a1 == 0 {
                    Ok(Value::NotANumber)
                } else if n1 {
                    Ok(Value::NegInf)
                } else {
                    Ok(Value::PosInf)
                }
            } else {
                proof {
                    lemma_mag_mul_bounds(a1 as int, d2 as int);
                    lemma_mag_mul_bounds(d1 as int, a2 as int);
                }
                let nn: u128 = (a1 as u128) * (d2 as u128);
                let dd: u128 = (d1 as u128) * (a2 as u128);
                finite_from_parts(n1 != n2, nn, dd)
            }
        },
    }
}

/// The remainder of the left value by the right one, with the sign of the
/// dividend.
pub fn rem_values(a: Value, b: Value) -> (r: Result<Value, CalcError>)
    requires
        a.wf(),
        b.wf(),
    ensures
        r == spec_rem_values(a, b),
        r matches Ok(v) ==> v.wf(),
{
    match (a, b) {
        (Value::NotANumber, _) => Ok(Value::NotANumber),
        (_, Value::NotANumber) => Ok(Value::NotANumber),
        (Value::PosInf, _) => Ok(Value::NotANumber),
        (Value::NegInf, _) => Ok(Value::NotANumber),
        (Value::Finite { neg, num, den }, Value::PosInf) => Ok(Value::Finite { neg, num, den }),
        (Value::Finite { neg, num, den }, Value::NegInf) => Ok(Value::Finite { neg, num, den }),
        (
            Value::Finite { neg: n1, num: a1, den: d1 },
            Value::Finite { neg: n2, num: a2, den: d2 },
        ) => {
            if a2 == 0 {
                Ok(Value::NotANumber)
            } else {
                proof {
                    lemma_mag_mul_bounds(a1 as int, d2 as int);
                    lemma_mag_mul_bounds(a2 as int, d1 as int);
                    lemma_mag_mul_bounds(d1 as int, d2 as int);
                }
                let y: u128 = (a1 as u128) * (d2 as u128);
                let x: u128 = (a2 as u128) * (d1 as u128);
                let dd: u128 = (d1 as u128) * (d2 as u128);
                finite_from_parts(n1, y % x, dd)
            }
        },
    }
}

/// Is the value strictly greater than zero.
pub fn value_gt_zero(v: Value) -> (r: bool)
    ensures
        r == spec_gt_zero(v),
{
    match v {
        Value::PosInf => true,
        Value::Finite { neg, num, .. } => !neg && num > 0,
        _ => false,
    }
}

/// Truncates a value toward zero to a 64-bit signed integer, saturating on
/// the infinities.
pub fn trunc_exponent(v: Value) -> (r: i64)
    requires
        v.wf(),
    ensures
        r as int == spec_trunc_exponent(v),
{
    match v {
        Value::NotANumber => 0,
        Value::PosInf => i64::MAX,
        Value::NegInf => i64::MIN,
        Value::Finite { neg, num, den } => {
            let q: u64 = num / den;
            assert(q <= num) by (nonlinear_arith)
                requires
                    den >= 1,
                    q == num as int / den as int,
            ;
            if neg {
                -(q as i64)
            } else {
                q as i64
            }
        },
    }
}

/// An error in the product chain stays the result of every longer chain.
proof fn lemma_pow_pos_err(base: Value, k: int, e: int)
    requires
        0 <= k <= e,
        spec_pow_pos(base, k) is Err,
    ensures
        spec_pow_pos(base, e) == spec_pow_pos(base, k),
    decreases e - k,
{
    if e > k {
        lemma_pow_pos_err(base, k, e - 1);
    }
}

/// Recursive exponent function, run as a product loop: multiplies `base`
/// into one `mag` times and takes the reciprocal when the exponent came in
/// negative. The exponent magnitude is handed over separately so that the
/// most negative 64-bit exponent still has one.
fn pow_chain(base: Value, mag: u64) -> (r: Result<Value, CalcError>)
    requires
        base.wf(),
    ensures
        r == spec_pow_pos(base, mag as int),
        r matches Ok(v) ==> v.wf(),
{
    let mut acc: Value = one_value();
    let mut k: u64 = 0;
    while k < mag
        invariant
            base.wf(),
            acc.wf(),
            k <= mag,
            Ok::<Value, CalcError>(acc) == spec_pow_pos(base, k as int),
        decreases mag - k,
    {
        match mul_values(base, acc) {
            Ok(v) => {
                acc = v;
            },
            Err(er) => {
                proof {
                    lemma_pow_pos_err(base, k as int + 1, mag as int);
                }
                return Err(er);
            },
        }
        k = k + 1;
    }
    Ok(acc)
}

/// Recursive exponent function: `pow(b, e, true)` is `b` multiplied into
/// one `e` times (one when `e <= 0`), and `pow(b, e, false)` is the
/// reciprocal of `pow(b, -e, true)`. Only integer exponents exist here; the
/// caller truncates.
pub fn pow(base: Value, exponent: i64, positive: bool) -> (r: Result<Value, CalcError>)
    requires
        base.wf(),
    ensures
        r == spec_pow(base, exponent as int, positive),
        r matches Ok(v) ==> v.wf(),
{
    if positive {
        let mag: u64 = if exponent > 0 {
            exponent as u64
        } else {
            0
        };
        pow_chain(base, mag)
    } else {
        let mag: u64 = if exponent >= 0 {
            0
        } else if exponent == i64::MIN {
            0x8000_0000_0000_0000
        } else {
            (-exponent) as u64
        };
        match pow_chain(base, mag) {
            Ok(v) => div_values(one_value(), v),
            Err(er) => Err(er),
        }
    }
}

/// An error in the factorial chain stays the result of every longer chain.
proof fn lemma_factorial_nat_err(k: int, n: int)
    requires
        0 <= k <= n,
        spec_factorial_nat(k) is Err,
    ensures
        spec_factorial_nat(n) == spec_factorial_nat(k),
    decreases n - k,
{
    if n > k {
        lemma_factorial_nat_err(k, n - 1);
    }
}

/// Recursive factorial function, run as a product loop. Defined on finite
/// values that are exact non-negative integers; anything else is reported
/// as a domain error, since the recursion would never reach its base case
/// there.
pub fn factorial(base: Value) -> (r: Result<Value, CalcError>)
    requires
        base.wf(),
    ensures
        r == spec_factorial_value(base),
        r matches Ok(v) ==> v.wf(),
{
    match base {
        Value::Finite { neg, num, den } => {
            if !neg && num % den == 0 {
                let n: u64 = num / den;
                assert(n <= num) by (nonlinear_arith)
                    requires
                        den >= 1,
                        n == num as int / den as int,
                ;
                let mut acc: Value = one_value();
                let mut k: u64 = 0;
                while k < n
                    invariant
                        base == (Value::Finite { neg, num, den }),
                        base.wf(),
                        !neg,
                        num % den == 0,
                        den >= 1,
                        n as int == num as int / den as int,
                        n <= MAX_MAG,
                        acc.wf(),
                        k <= n,
                        Ok::<Value, CalcError>(acc) == spec_factorial_nat(k as int),
                    decreases n - k,
                {
                    let step = Value::Finite { neg: false, num: k + 1, den: 1 };
                    match mul_values(step, acc) {
                        Ok(v) => {
                            acc = v;
                        },
                        Err(er) => {
                            proof {
                                assert(spec_factorial_nat(k as int + 1) == spec_mul_values(
                                    step,
                                    acc,
                                ));
                                lemma_factorial_nat_err(k as int + 1, n as int);
                            }
                            return Err(er);
                        },
                    }
                    k = k + 1;
                }
                Ok(acc)
            } else {
                Err(CalcError::FactorialDomain)
            }
        },
        _ => Err(CalcError::FactorialDomain),
    }
}

} // verus!
