//! Operators and casts on scalar values.
//!
//! Integer arithmetic wraps around at the bounds of 64 bits. Division and
//! remainder round towards zero and fail on a zero divisor; a shift fails on an
//! amount below zero or above 63. Floats are not computed here: but for a
//! division by zero, which fails, the result is a request to the host.

use vstd::prelude::*;
use vstd::arithmetic::power::{lemma_pow0, lemma_pow1, lemma_pow_adds, lemma_pow_multiplies, pow};
use vstd::arithmetic::div_mod::{
    lemma_div_is_ordered_by_denominator,
    lemma_div_pos_is_pos,
    lemma_fundamental_div_mod,
    lemma_mod_multiples_vanish,
};
use crate::host::FloatRequest;
use crate::state::Expect;
use crate::tree::{AssignOp, InfixOp, PrefixOp, Type};
use crate::value::Value;

verus! {

/// Why an operator failed at run time.
#[derive(Debug, Clone, Copy, PartialEq, Eq, Structural)]
pub enum Fault {
    DivisionByZero,
    RemainderByZero,
    /// A shift to the left by this amount.
    ShiftLeft(i64),
    /// A shift to the right by this amount.
    ShiftRight(i64),
}

/// What applying an operator or a cast comes to.
#[derive(Debug, Clone, Copy, PartialEq, Eq, Structural)]
pub enum Computed {
    Value(Value),
    /// The operation fails at run time.
    Error(Fault),
    /// The host has to compute the result, and owes an answer of this kind.
    Host(FloatRequest, Expect),
    /// The operands are of types that the operation is not defined on.
    Defect,
}

/// The 64-bit integer that is congruent to `x` modulo 2^64.
pub open spec fn wrap_i64(x: int) -> i64 {
    (((x + 0x8000_0000_0000_0000) % 0x1_0000_0000_0000_0000) - 0x8000_0000_0000_0000) as i64
}

/// The quotient rounded towards zero.
pub open spec fn trunc_div(a: int, b: int) -> int {
    if a >= 0 {
        if b > 0 {
            a / b
        } else {
            -(a / (-b))
        }
    } else {
        if b > 0 {
            -((-a) / b)
        } else {
            (-a) / (-b)
        }
    }
}

/// The remainder that goes with `trunc_div`: it has the sign of `a`.
pub open spec fn trunc_rem(a: int, b: int) -> int {
    if a >= 0 {
        if b > 0 {
            a % b
        } else {
            a % (-b)
        }
    } else {
        if b > 0 {
            -((-a) % b)
        } else {
            -((-a) % (-b))
        }
    }
}

/// The exponent that `**` uses: the low 32 bits of a non-negative number.
pub open spec fn pow_exponent(b: i64) -> nat {
    (b % 0x1_0000_0000) as nat
}

/// Whether an operator compares its operands.
pub open spec fn is_comparison(op: InfixOp) -> bool {
    op == InfixOp::Eq || op == InfixOp::Neq || op == InfixOp::Lt || op == InfixOp::Gt || op
        == InfixOp::Lte || op == InfixOp::Gte
}

/// Whether an operator is one of `+ - * / % **`.
pub open spec fn is_arithmetic(op: InfixOp) -> bool {
    op == InfixOp::Plus || op == InfixOp::Minus || op == InfixOp::Mul || op == InfixOp::Div || op
        == InfixOp::Rem || op == InfixOp::Pow
}

/// An infix operator on two integers.
pub open spec fn int_result(op: InfixOp, a: i64, b: i64) -> Computed {
    match op {
        InfixOp::Plus => Computed::Value(Value::Int(wrap_i64(a + b))),
        InfixOp::Minus => Computed::Value(Value::Int(wrap_i64(a - b))),
        InfixOp::Mul => Computed::Value(Value::Int(wrap_i64(a * b))),
        InfixOp::Div => if b == 0 {
            Computed::Error(Fault::DivisionByZero)
        } else {
            Computed::Value(Value::Int(wrap_i64(trunc_div(a as int, b as int))))
        },
        InfixOp::Rem => if b == 0 {
            Computed::Error(Fault::RemainderByZero)
        } else {
            Computed::Value(Value::Int(wrap_i64(trunc_rem(a as int, b as int))))
        },
        InfixOp::Pow => if b < 0 {
            Computed::Value(Value::Int(0))
        } else {
            Computed::Value(Value::Int(wrap_i64(pow(a as int, pow_exponent(b)))))
        },
        InfixOp::Eq => Computed::Value(Value::Bool(a == b)),
        InfixOp::Neq => Computed::Value(Value::Bool(a != b)),
        InfixOp::Lt => Computed::Value(Value::Bool(a < b)),
        InfixOp::Gt => Computed::Value(Value::Bool(a > b)),
        InfixOp::Lte => Computed::Value(Value::Bool(a <= b)),
        InfixOp::Gte => Computed::Value(Value::Bool(a >= b)),
        InfixOp::Shl => if b < 0 || b > 63 {
            Computed::Error(Fault::ShiftLeft(b))
        } else {
            Computed::Value(Value::Int(a << b))
        },
        InfixOp::Shr => if b < 0 || b > 63 {
            Computed::Error(Fault::ShiftRight(b))
        } else {
            Computed::Value(Value::Int(a >> b))
        },
        InfixOp::BitOr => Computed::Value(Value::Int(a | b)),
        InfixOp::BitAnd => Computed::Value(Value::Int(a & b)),
        InfixOp::BitXor => Computed::Value(Value::Int(a ^ b)),
        InfixOp::And | InfixOp::Or => Computed::Defect,
    }
}

/// An infix operator on two booleans.
pub open spec fn bool_result(op: InfixOp, a: bool, b: bool) -> Computed {
    match op {
        InfixOp::Eq => Computed::Value(Value::Bool(a == b)),
        InfixOp::Neq => Computed::Value(Value::Bool(a != b)),
        InfixOp::BitOr => Computed::Value(Value::Bool(a || b)),
        InfixOp::BitAnd => Computed::Value(Value::Bool(a && b)),
        InfixOp::BitXor => Computed::Value(Value::Bool(a != b)),
        _ => Computed::Defect,
    }
}

/// An infix operator on two characters. Sums and differences stay within the
/// 128 codes of a character.
pub open spec fn char_result(op: InfixOp, a: u8, b: u8) -> Computed {
    match op {
        InfixOp::Plus => Computed::Value(Value::Char(((a + b) % 128) as u8)),
        InfixOp::Minus => Computed::Value(Value::Char(((a - b) % 128) as u8)),
        InfixOp::Eq => Computed::Value(Value::Bool(a == b)),
        InfixOp::Neq => Computed::Value(Value::Bool(a != b)),
        InfixOp::Lt => Computed::Value(Value::Bool(a < b)),
        InfixOp::Gt => Computed::Value(Value::Bool(a > b)),
        InfixOp::Lte => Computed::Value(Value::Bool(a <= b)),
        InfixOp::Gte => Computed::Value(Value::Bool(a >= b)),
        _ => Computed::Defect,
    }
}

/// Whether the bits are those of a float that is zero, of either sign.
pub open spec fn is_float_zero(bits: u64) -> bool {
    bits == 0 || bits == 0x8000_0000_0000_0000
}

/// An infix operator on two floats: division and remainder fail on a divisor
/// that is zero, and other arithmetic and comparisons go to the host.
pub open spec fn float_result(op: InfixOp, a: u64, b: u64) -> Computed {
    if op == InfixOp::Div && is_float_zero(b) {
        Computed::Error(Fault::DivisionByZero)
    } else if op == InfixOp::Rem && is_float_zero(b) {
        Computed::Error(Fault::RemainderByZero)
    } else if is_comparison(op) {
        Computed::Host(FloatRequest::Infix(op, a, b), Expect::Bool)
    } else if is_arithmetic(op) {
        Computed::Host(FloatRequest::Infix(op, a, b), Expect::Float)
    } else {
        Computed::Defect
    }
}

/// An infix operator on two scalars of one type. Texts are not handled here,
/// nor the logical operators, which do not always look at their right operand.
pub open spec fn infix_result(op: InfixOp, lhs: Value, rhs: Value) -> Computed {
    match (lhs, rhs) {
        (Value::Int(a), Value::Int(b)) => int_result(op, a, b),
        (Value::Float(a), Value::Float(b)) => float_result(op, a, b),
        (Value::Bool(a), Value::Bool(b)) => bool_result(op, a, b),
        (Value::Char(a), Value::Char(b)) => char_result(op, a, b),
        _ => Computed::Defect,
    }
}

/// A prefix operator on a value. Taking an address and reading through a
/// pointer need the scopes and the store, and are not handled here.
pub open spec fn prefix_result(op: PrefixOp, operand: Value) -> Computed {
    match (op, operand) {
        (PrefixOp::Not, Value::Bool(b)) => Computed::Value(Value::Bool(!b)),
        (PrefixOp::Neg, Value::Int(i)) => Computed::Value(Value::Int(wrap_i64(-i))),
        (PrefixOp::Neg, Value::Float(bits)) => Computed::Host(
            FloatRequest::Negate(bits),
            Expect::Float,
        ),
        _ => Computed::Defect,
    }
}

/// The infix operator that a compound assignment applies.
pub open spec fn assign_operator(op: AssignOp) -> Option<InfixOp> {
    match op {
        AssignOp::Basic => None,
        AssignOp::Plus => Some(InfixOp::Plus),
        AssignOp::Minus => Some(InfixOp::Minus),
        AssignOp::Mul => Some(InfixOp::Mul),
        AssignOp::Div => Some(InfixOp::Div),
        AssignOp::Rem => Some(InfixOp::Rem),
        AssignOp::Pow => Some(InfixOp::Pow),
        AssignOp::Shl => Some(InfixOp::Shl),
        AssignOp::Shr => Some(InfixOp::Shr),
        AssignOp::BitOr => Some(InfixOp::BitOr),
        AssignOp::BitAnd => Some(InfixOp::BitAnd),
        AssignOp::BitXor => Some(InfixOp::BitXor),
    }
}

/// The scalar types that a cast can aim at.
#[derive(Debug, Clone, Copy, PartialEq, Eq, Structural)]
pub enum Scalar {
    Int,
    Float,
    Bool,
    Char,
}

/// The scalar type that a declared type names, where it names one.
pub open spec fn scalar_of(t: Type) -> Option<Scalar> {
    match t {
        Type::Int(n) => if n == 0 {
            Some(Scalar::Int)
        } else {
            None
        },
        Type::Float(n) => if n == 0 {
            Some(Scalar::Float)
        } else {
            None
        },
        Type::Bool(n) => if n == 0 {
            Some(Scalar::Bool)
        } else {
            None
        },
        Type::Char(n) => if n == 0 {
            Some(Scalar::Char)
        } else {
            None
        },
        _ => None,
    }
}

pub open spec fn bool_number(b: bool) -> i64 {
    if b {
        1
    } else {
        0
    }
}

/// An integer brought into the range of character codes.
pub open spec fn clamp_char(i: i64) -> u8 {
    if i < 0 {
        0
    } else if i > 127 {
        127
    } else {
        i as u8
    }
}

/// A cast between scalars. A cast to the value's own type changes nothing; a
/// cast from or to a float goes to the host. Of a float that is cast to a
/// character the host gives the integer part, which is then brought into the
/// range of character codes.
pub open spec fn cast_result(value: Value, target: Scalar) -> Computed {
    match (value, target) {
        (Value::Int(_), Scalar::Int) => Computed::Value(value),
        (Value::Float(_), Scalar::Float) => Computed::Value(value),
        (Value::Char(_), Scalar::Char) => Computed::Value(value),
        (Value::Bool(_), Scalar::Bool) => Computed::Value(value),
        (Value::Int(i), Scalar::Float) => Computed::Host(FloatRequest::FromInt(i), Expect::Float),
        (Value::Int(i), Scalar::Bool) => Computed::Value(Value::Bool(i != 0)),
        (Value::Int(i), Scalar::Char) => Computed::Value(Value::Char(clamp_char(i))),
        (Value::Float(bits), Scalar::Int) => Computed::Host(FloatRequest::ToInt(bits), Expect::Int),
        (Value::Float(bits), Scalar::Bool) => Computed::Host(
            FloatRequest::ToBool(bits),
            Expect::Bool,
        ),
        (Value::Float(bits), Scalar::Char) => Computed::Host(
            FloatRequest::ToInt(bits),
            Expect::Char,
        ),
        (Value::Bool(b), Scalar::Int) => Computed::Value(Value::Int(bool_number(b))),
        (Value::Bool(b), Scalar::Float) => Computed::Host(
            FloatRequest::FromInt(bool_number(b)),
            Expect::Float,
        ),
        (Value::Bool(b), Scalar::Char) => Computed::Value(Value::Char(bool_number(b) as u8)),
        (Value::Char(c), Scalar::Int) => Computed::Value(Value::Int(c as i64)),
        (Value::Char(c), Scalar::Float) => Computed::Host(
            FloatRequest::FromInt(c as i64),
            Expect::Float,
        ),
        (Value::Char(c), Scalar::Bool) => Computed::Value(Value::Bool(c != 0)),
        _ => Computed::Defect,
    }
}

/// An integer differs from what it wraps to by a multiple of 2^64.
proof fn lemma_wrap_residue(x: int) -> (k: int)
    ensures
        x == wrap_i64(x) + k * 0x1_0000_0000_0000_0000,
{
    lemma_fundamental_div_mod(x + 0x8000_0000_0000_0000, 0x1_0000_0000_0000_0000);
    let k = (x + 0x8000_0000_0000_0000) / 0x1_0000_0000_0000_0000;
    assert(0x1_0000_0000_0000_0000 * k == k * 0x1_0000_0000_0000_0000) by (nonlinear_arith);
    k
}

/// Integers that differ by a multiple of 2^64 wrap to the same.
proof fn lemma_wrap_congruent(a: int, b: int, k: int)
    requires
        a == b + k * 0x1_0000_0000_0000_0000,
    ensures
        wrap_i64(a) == wrap_i64(b),
{
    lemma_mod_multiples_vanish(k, b + 0x8000_0000_0000_0000, 0x1_0000_0000_0000_0000);
    assert(a + 0x8000_0000_0000_0000 == 0x1_0000_0000_0000_0000 * k + (b
        + 0x8000_0000_0000_0000)) by (nonlinear_arith)
        requires
            a == b + k * 0x1_0000_0000_0000_0000,
    ;
}

/// A product wraps to what the product of the wrapped factors wraps to.
proof fn lemma_wrap_product(x: int, y: int)
    ensures
        wrap_i64(x * y) == wrap_i64(wrap_i64(x) * wrap_i64(y)),
{
    let p = lemma_wrap_residue(x);
    let q = lemma_wrap_residue(y);
    let wx = wrap_i64(x) as int;
    let wy = wrap_i64(y) as int;
    let k = wx * q + p * wy + p * q * 0x1_0000_0000_0000_0000;
    assert(x * y == wx * wy + k * 0x1_0000_0000_0000_0000) by (nonlinear_arith)
        requires
            x == wx + p * 0x1_0000_0000_0000_0000,
            y == wy + q * 0x1_0000_0000_0000_0000,
            k == wx * q + p * wy + p * q * 0x1_0000_0000_0000_0000,
    ;
    lemma_wrap_congruent(x * y, wx * wy, k);
}

/// Products of factors that wrap alike wrap alike.
proof fn lemma_wrap_products(x: int, y: int, u: int, v: int)
    requires
        wrap_i64(x) == wrap_i64(u),
        wrap_i64(y) == wrap_i64(v),
    ensures
        wrap_i64(x * y) == wrap_i64(u * v),
{
    lemma_wrap_product(x, y);
    lemma_wrap_product(u, v);
}

/// Powers of bases that wrap alike wrap alike.
proof fn lemma_wrap_powers(x: int, u: int, e: nat)
    requires
        wrap_i64(x) == wrap_i64(u),
    ensures
        wrap_i64(pow(x, e)) == wrap_i64(pow(u, e)),
    decreases e,
{
    reveal(pow);
    if e > 0 {
        lemma_wrap_powers(x, u, (e - 1) as nat);
        lemma_wrap_products(x, pow(x, (e - 1) as nat), u, pow(u, (e - 1) as nat));
    }
}

/// A 64-bit integer wraps to itself.
proof fn lemma_wrap_self(x: i64)
    ensures
        wrap_i64(x as int) == x,
{
}

/// A power with an even exponent is a power of the square; with an odd
/// exponent it has one more factor.
proof fn lemma_pow_halves(b: int, e: nat)
    ensures
        e % 2 == 0 ==> pow(b, e) == pow(b * b, e / 2),
        e % 2 == 1 ==> pow(b, e) == b * pow(b * b, e / 2),
{
    reveal(pow);
    lemma_pow_multiplies(b, 2, e / 2);
    assert(pow(b, 2) == b * b) by {
        lemma_pow1(b);
        lemma_pow_adds(b, 1, 1);
    }
    if e % 2 == 0 {
        assert(2 * (e / 2) == e);
    } else {
        assert(2 * (e / 2) == e - 1);
    }
}

/// The power, wrapped into 64 bits, by squaring and multiplying.
fn wrapping_pow(base: i64, exponent: u32) -> (r: i64)
    ensures
        r == wrap_i64(pow(base as int, exponent as nat)),
{
    let ghost total = pow(base as int, exponent as nat);
    let mut result: i64 = 1;
    let mut square = base;
    let mut left = exponent;
    assert(result * pow(square as int, left as nat) == total) by (nonlinear_arith)
        requires
            result == 1,
            pow(square as int, left as nat) == total,
    ;
    while left > 0
        invariant
            wrap_i64(result * pow(square as int, left as nat)) == wrap_i64(total),
        decreases left,
    {
        let ghost old_result = result as int;
        let ghost old_square = square as int;
        let ghost old_left = left as nat;
        if left % 2 == 1 {
            result = wrapping_product(result, square);
        }
        square = wrapping_product(square, square);
        left = left / 2;
        proof {
            lemma_pow_halves(old_square, old_left);
            lemma_wrap_self(square);
            // The new square stands for the square of the old one.
            lemma_wrap_powers(square as int, old_square * old_square, left as nat);
            let power = pow(old_square * old_square, left as nat);
            if old_left % 2 == 1 {
                lemma_wrap_self(result);
                lemma_wrap_products(
                    result as int,
                    pow(square as int, left as nat),
                    old_result * old_square,
                    power,
                );
                assert((old_result * old_square) * power == old_result * (old_square * power))
                    by (nonlinear_arith);
            } else {
                lemma_wrap_products(
                    result as int,
                    pow(square as int, left as nat),
                    old_result,
                    power,
                );
            }
        }
    }
    proof {
        lemma_pow0(square as int);
        assert(result * pow(square as int, 0) == result) by (nonlinear_arith)
            requires
                pow(square as int, 0) == 1,
        ;
        lemma_wrap_self(result);
    }
    result
}

proof fn lemma_div_bound(x: int, d: int)
    requires
        x >= 0,
        d > 0,
    ensures
        0 <= x / d <= x,
{
    lemma_div_pos_is_pos(x, d);
    lemma_div_is_ordered_by_denominator(x, 1, d);
}

/// The quotient rounded towards zero, wrapped into 64 bits.
fn wrapping_div(a: i64, b: i64) -> (r: i64)
    requires
        b != 0,
    ensures
        r == wrap_i64(trunc_div(a as int, b as int)),
{
    proof {
        lemma_div_bound(
            if a >= 0 {
                a as int
            } else {
                -a
            },
            if b > 0 {
                b as int
            } else {
                -b
            },
        );
    }
    match a.checked_div(b) {
        Some(q) => q,
        None => i64::MIN,
    }
}

/// The remainder of the division rounded towards zero.
fn wrapping_rem(a: i64, b: i64) -> (r: i64)
    requires
        b != 0,
    ensures
        r == wrap_i64(trunc_rem(a as int, b as int)),
{
    match a.checked_rem(b) {
        Some(r) => r,
        None => 0,
    }
}

fn wrapping_sum(a: i64, b: i64) -> (r: i64)
    ensures
        r == wrap_i64(a + b),
{
    a.wrapping_add(b)
}

fn wrapping_difference(a: i64, b: i64) -> (r: i64)
    ensures
        r == wrap_i64(a - b),
{
    a.wrapping_sub(b)
}

fn wrapping_product(a: i64, b: i64) -> (r: i64)
    ensures
        r == wrap_i64(a * b),
{
    a.wrapping_mul(b)
}

/// The power with the exponent that `**` uses.
fn wrapping_power(a: i64, b: i64) -> (r: i64)
    requires
        b >= 0,
    ensures
        r == wrap_i64(pow(a as int, pow_exponent(b))),
{
    let exponent: u32 = (b % 0x1_0000_0000) as u32;
    wrapping_pow(a, exponent)
}

/// Applies an infix operator to two integers.
pub fn int_infix(op: InfixOp, a: i64, b: i64) -> (r: Computed)
    ensures
        r == int_result(op, a, b),
{
    match op {
        InfixOp::Plus => Computed::Value(Value::Int(wrapping_sum(a, b))),
        InfixOp::Minus => Computed::Value(Value::Int(wrapping_difference(a, b))),
        InfixOp::Mul => Computed::Value(Value::Int(wrapping_product(a, b))),
        InfixOp::Div => if b == 0 {
            Computed::Error(Fault::DivisionByZero)
        } else {
            Computed::Value(Value::Int(wrapping_div(a, b)))
        },
        InfixOp::Rem => if b == 0 {
            Computed::Error(Fault::RemainderByZero)
        } else {
            Computed::Value(Value::Int(wrapping_rem(a, b)))
        },
        InfixOp::Pow => if b < 0 {
            Computed::Value(Value::Int(0))
        } else {
            Computed::Value(Value::Int(wrapping_power(a, b)))
        },
        InfixOp::Eq => Computed::Value(Value::Bool(a == b)),
        InfixOp::Neq => Computed::Value(Value::Bool(a != b)),
        InfixOp::Lt => Computed::Value(Value::Bool(a < b)),
        InfixOp::Gt => Computed::Value(Value::Bool(a > b)),
        InfixOp::Lte => Computed::Value(Value::Bool(a <= b)),
        InfixOp::Gte => Computed::Value(Value::Bool(a >= b)),
        InfixOp::Shl => if b < 0 || b > 63 {
            Computed::Error(Fault::ShiftLeft(b))
        } else {
            Computed::Value(Value::Int(a << b))
        },
        InfixOp::Shr => if b < 0 || b > 63 {
            Computed::Error(Fault::ShiftRight(b))
        } else {
            Computed::Value(Value::Int(a >> b))
        },
        InfixOp::BitOr => Computed::Value(Value::Int(a | b)),
        InfixOp::BitAnd => Computed::Value(Value::Int(a & b)),
        InfixOp::BitXor => Computed::Value(Value::Int(a ^ b)),
        InfixOp::And | InfixOp::Or => Computed::Defect,
    }
}

/// Applies an infix operator to two booleans.
pub fn bool_infix(op: InfixOp, a: bool, b: bool) -> (r: Computed)
    ensures
        r == bool_result(op, a, b),
{
    match op {
        InfixOp::Eq => Computed::Value(Value::Bool(a == b)),
        InfixOp::Neq => Computed::Value(Value::Bool(a != b)),
        InfixOp::BitOr => Computed::Value(Value::Bool(a || b)),
        InfixOp::BitAnd => Computed::Value(Value::Bool(a && b)),
        InfixOp::BitXor => Computed::Value(Value::Bool(a != b)),
        _ => Computed::Defect,
    }
}

/// Applies an infix operator to two characters.
pub fn char_infix(op: InfixOp, a: u8, b: u8) -> (r: Computed)
    ensures
        r == char_result(op, a, b),
{
    match op {
        InfixOp::Plus => {
            let sum = a.wrapping_add(b);
            assert(sum & 0x7f == sum % 128) by (bit_vector);
            Computed::Value(Value::Char(sum & 0x7f))
        },
        InfixOp::Minus => {
            let difference = a.wrapping_sub(b);
            assert(difference & 0x7f == difference % 128) by (bit_vector);
            Computed::Value(Value::Char(difference & 0x7f))
        },
        InfixOp::Eq => Computed::Value(Value::Bool(a == b)),
        InfixOp::Neq => Computed::Value(Value::Bool(a != b)),
        InfixOp::Lt => Computed::Value(Value::Bool(a < b)),
        InfixOp::Gt => Computed::Value(Value::Bool(a > b)),
        InfixOp::Lte => Computed::Value(Value::Bool(a <= b)),
        InfixOp::Gte => Computed::Value(Value::Bool(a >= b)),
        _ => Computed::Defect,
    }
}

/// Turns an infix operator on two floats into a request to the host.
pub fn float_infix(op: InfixOp, a: u64, b: u64) -> (r: Computed)
    ensures
        r == float_result(op, a, b),
{
    let zero = b == 0 || b == 0x8000_0000_0000_0000;
    match op {
        InfixOp::Div => if zero {
            Computed::Error(Fault::DivisionByZero)
        } else {
            Computed::Host(FloatRequest::Infix(op, a, b), Expect::Float)
        },
        InfixOp::Rem => if zero {
            Computed::Error(Fault::RemainderByZero)
        } else {
            Computed::Host(FloatRequest::Infix(op, a, b), Expect::Float)
        },
        InfixOp::Plus | InfixOp::Minus | InfixOp::Mul | InfixOp::Pow => Computed::Host(
            FloatRequest::Infix(op, a, b),
            Expect::Float,
        ),
        InfixOp::Eq | InfixOp::Neq | InfixOp::Lt | InfixOp::Gt | InfixOp::Lte
        | InfixOp::Gte => Computed::Host(FloatRequest::Infix(op, a, b), Expect::Bool),
        _ => Computed::Defect,
    }
}

/// Applies an infix operator to two scalars.
pub fn infix(op: InfixOp, lhs: Value, rhs: Value) -> (r: Computed)
    ensures
        r == infix_result(op, lhs, rhs),
{
    match (lhs, rhs) {
        (Value::Int(a), Value::Int(b)) => int_infix(op, a, b),
        (Value::Float(a), Value::Float(b)) => float_infix(op, a, b),
        (Value::Bool(a), Value::Bool(b)) => bool_infix(op, a, b),
        (Value::Char(a), Value::Char(b)) => char_infix(op, a, b),
        _ => Computed::Defect,
    }
}

/// Applies logical not or numeric negation.
pub fn prefix(op: PrefixOp, operand: Value) -> (r: Computed)
    ensures
        r == prefix_result(op, operand),
{
    match (op, operand) {
        (PrefixOp::Not, Value::Bool(b)) => Computed::Value(Value::Bool(!b)),
        (PrefixOp::Neg, Value::Int(i)) => Computed::Value(Value::Int(wrapping_difference(0, i))),
        (PrefixOp::Neg, Value::Float(bits)) => Computed::Host(
            FloatRequest::Negate(bits),
            Expect::Float,
        ),
        _ => Computed::Defect,
    }
}

/// The infix operator behind a compound assignment.
pub fn operator_of(op: AssignOp) -> (r: Option<InfixOp>)
    ensures
        r == assign_operator(op),
{
    match op {
        AssignOp::Basic => None,
        AssignOp::Plus => Some(InfixOp::Plus),
        AssignOp::Minus => Some(InfixOp::Minus),
        AssignOp::Mul => Some(InfixOp::Mul),
        AssignOp::Div => Some(InfixOp::Div),
        AssignOp::Rem => Some(InfixOp::Rem),
        AssignOp::Pow => Some(InfixOp::Pow),
        AssignOp::Shl => Some(InfixOp::Shl),
        AssignOp::Shr => Some(InfixOp::Shr),
        AssignOp::BitOr => Some(InfixOp::BitOr),
        AssignOp::BitAnd => Some(InfixOp::BitAnd),
        AssignOp::BitXor => Some(InfixOp::BitXor),
    }
}

/// The scalar type that a declared type names.
pub fn scalar(t: &Type) -> (r: Option<Scalar>)
    ensures
        r == scalar_of(*t),
{
    match t {
        Type::Int(n) => if *n == 0 {
            Some(Scalar::Int)
        } else {
            None
        },
        Type::Float(n) => if *n == 0 {
            Some(Scalar::Float)
        } else {
            None
        },
        Type::Bool(n) => if *n == 0 {
            Some(Scalar::Bool)
        } else {
            None
        },
        Type::Char(n) => if *n == 0 {
            Some(Scalar::Char)
        } else {
            None
        },
        _ => None,
    }
}

/// Brings an integer into the range of character codes.
pub fn clamp_to_char(i: i64) -> (code: u8)
    ensures
        code == clamp_char(i),
{
    if i < 0 {
        0
    } else if i > 127 {
        127
    } else {
        i as u8
    }
}

/// Casts a scalar to a scalar type.
pub fn cast(value: Value, target: Scalar) -> (r: Computed)
    ensures
        r == cast_result(value, target),
{
    match (value, target) {
        (Value::Int(_), Scalar::Int) => Computed::Value(value),
        (Value::Float(_), Scalar::Float) => Computed::Value(value),
        (Value::Char(_), Scalar::Char) => Computed::Value(value),
        (Value::Bool(_), Scalar::Bool) => Computed::Value(value),
        (Value::Int(i), Scalar::Float) => Computed::Host(FloatRequest::FromInt(i), Expect::Float),
        (Value::Int(i), Scalar::Bool) => Computed::Value(Value::Bool(i != 0)),
        (Value::Int(i), Scalar::Char) => Computed::Value(Value::Char(clamp_to_char(i))),
        (Value::Float(bits), Scalar::Int) => Computed::Host(FloatRequest::ToInt(bits), Expect::Int),
        (Value::Float(bits), Scalar::Bool) => Computed::Host(
            FloatRequest::ToBool(bits),
            Expect::Bool,
        ),
        (Value::Float(bits), Scalar::Char) => Computed::Host(
            FloatRequest::ToInt(bits),
            Expect::Char,
        ),
        (Value::Bool(b), Scalar::Int) => Computed::Value(Value::Int(if b { 1 } else { 0 })),
        (Value::Bool(b), Scalar::Float) => Computed::Host(
            FloatRequest::FromInt(if b { 1 } else { 0 }),
            Expect::Float,
        ),
        (Value::Bool(b), Scalar::Char) => Computed::Value(Value::Char(if b { 1 } else { 0 })),
        (Value::Char(c), Scalar::Int) => Computed::Value(Value::Int(c as i64)),
        (Value::Char(c), Scalar::Float) => Computed::Host(
            FloatRequest::FromInt(c as i64),
            Expect::Float,
        ),
        (Value::Char(c), Scalar::Bool) => Computed::Value(Value::Bool(c != 0)),
        _ => Computed::Defect,
    }
}

} // verus!
