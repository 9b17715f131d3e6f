//! Arithmetic on numbers, kept on integers while the result fits in an
//! `i64` and moved to floats where it does not; equality across kinds;
//! numbers read as path keys and indices.
use vstd::prelude::*;
use super::{
    float_answer_bits, float_answer_whole, float_bits_answer, float_bits_lt, float_eq, float_lt, float_of_int, float_service, float_text, float_text_of, float_whole_answer, float_from_int, float_bits_eq, float_bits_of, numeric_float_bits, ErrorModel, FloatAnswer, FloatArith, FloatQuery, Numeric, QueryModel,
};
use crate::evaluation::EvaluationError;
use crate::text::{i64_to_decimal, int_decimal};

verus! {

/// The result of `op` on two floats, by `f`.
pub open spec fn float_arith<F: Fn(FloatQuery) -> FloatAnswer>(f: F, op: FloatArith, a: u64, b: u64) -> u64 {
    float_answer_bits(f, QueryModel::Arith(op, a, b))
}

/// `op` on two numbers as floats.
pub open spec fn float_op_of<F: Fn(FloatQuery) -> FloatAnswer>(f: F, op: FloatArith, l: Numeric, r: Numeric) -> Numeric {
    Numeric::Float(float_arith(f, op, float_bits_of(f, l), float_bits_of(f, r)))
}

/// Sum: of two integers while it fits in an `i64`, else of their floats.
pub open spec fn spec_add_numbers<F: Fn(FloatQuery) -> FloatAnswer>(f: F, l: Numeric, r: Numeric) -> Numeric {
    match (l, r) {
        (Numeric::Int(a), Numeric::Int(b)) => match a.checked_add(b) {
            Some(c) => Numeric::Int(c),
            None => float_op_of(f, FloatArith::Add, l, r),
        },
        _ => float_op_of(f, FloatArith::Add, l, r),
    }
}

/// Difference: of two integers while it fits in an `i64`, else of their
/// floats.
pub open spec fn spec_subtract_numbers<F: Fn(FloatQuery) -> FloatAnswer>(f: F, l: Numeric, r: Numeric) -> Numeric {
    match (l, r) {
        (Numeric::Int(a), Numeric::Int(b)) => match a.checked_sub(b) {
            Some(c) => Numeric::Int(c),
            None => float_op_of(f, FloatArith::Subtract, l, r),
        },
        _ => float_op_of(f, FloatArith::Subtract, l, r),
    }
}

/// Product: of two integers while it fits in an `i64`, else of their
/// floats.
pub open spec fn spec_multiply_numbers<F: Fn(FloatQuery) -> FloatAnswer>(f: F, l: Numeric, r: Numeric) -> Numeric {
    match (l, r) {
        (Numeric::Int(a), Numeric::Int(b)) => match a.checked_mul(b) {
            Some(c) => Numeric::Int(c),
            None => float_op_of(f, FloatArith::Multiply, l, r),
        },
        _ => float_op_of(f, FloatArith::Multiply, l, r),
    }
}

/// Quotient: refused for a zero divisor; an integer where two integers
/// divide exactly, else the quotient of their floats.
pub open spec fn spec_divide_numbers<F: Fn(FloatQuery) -> FloatAnswer>(f: F, l: Numeric, r: Numeric) -> Result<Numeric, ErrorModel> {
    if r.spec_is_zero() {
        Err(ErrorModel::DivisionByZero)
    } else {
        match (l, r) {
            (Numeric::Int(a), Numeric::Int(b)) => if a.checked_rem(b) == Some(0i64) {
                match a.checked_div(b) {
                    Some(c) => Ok(Numeric::Int(c)),
                    None => Err(ErrorModel::DivisionByZero),
                }
            } else {
                Ok(float_op_of(f, FloatArith::Divide, l, r))
            },
            _ => Ok(float_op_of(f, FloatArith::Divide, l, r)),
        }
    }
}

/// Remainder: refused for a zero divisor; of two integers where it is
/// defined, else of their floats.
pub open spec fn spec_modulo_numbers<F: Fn(FloatQuery) -> FloatAnswer>(f: F, l: Numeric, r: Numeric) -> Result<Numeric, ErrorModel> {
    if r.spec_is_zero() {
        Err(ErrorModel::DivisionByZero)
    } else {
        match (l, r) {
            (Numeric::Int(a), Numeric::Int(b)) => match a.checked_rem(b) {
                Some(c) => Ok(Numeric::Int(c)),
                None => Ok(float_op_of(f, FloatArith::Remainder, l, r)),
            },
            _ => Ok(float_op_of(f, FloatArith::Remainder, l, r)),
        }
    }
}

/// What a numeric result stands for.
pub open spec fn number_outcome(r: Result<Numeric, EvaluationError>) -> Result<Numeric, ErrorModel> {
    match r {
        Ok(n) => Ok(n),
        Err(e) => Err(e.model()),
    }
}

fn float_op<F: Fn(FloatQuery) -> FloatAnswer>(op: FloatArith, l: Numeric, r: Numeric, floats: &F) -> (n: Numeric)
    requires
        float_service(*floats),
    ensures
        n == float_op_of(*floats, op, l, r),
{
    let a = numeric_float_bits(l, floats);
    let b = numeric_float_bits(r, floats);
    Numeric::Float(float_bits_answer(floats, FloatQuery::Arith(op, a, b)))
}

/// The sum of two numbers (see [`spec_add_numbers`]).
pub fn add_numbers<F: Fn(FloatQuery) -> FloatAnswer>(lhs: Numeric, rhs: Numeric, floats: &F) -> (n: Numeric)
    requires
        float_service(*floats),
    ensures
        n == spec_add_numbers(*floats, lhs, rhs),
{
    match (lhs, rhs) {
        (Numeric::Int(a), Numeric::Int(b)) => match a.checked_add(b) {
            Some(c) => Numeric::Int(c),
            None => float_op(FloatArith::Add, lhs, rhs, floats),
        },
        _ => float_op(FloatArith::Add, lhs, rhs, floats),
    }
}

/// The difference of two numbers (see [`spec_subtract_numbers`]).
pub fn subtract_numbers<F: Fn(FloatQuery) -> FloatAnswer>(lhs: Numeric, rhs: Numeric, floats: &F) -> (n: Numeric)
    requires
        float_service(*floats),
    ensures
        n == spec_subtract_numbers(*floats, lhs, rhs),
{
    match (lhs, rhs) {
        (Numeric::Int(a), Numeric::Int(b)) => match a.checked_sub(b) {
            Some(c) => Numeric::Int(c),
            None => float_op(FloatArith::Subtract, lhs, rhs, floats),
        },
        _ => float_op(FloatArith::Subtract, lhs, rhs, floats),
    }
}

/// The product of two numbers (see [`spec_multiply_numbers`]).
pub fn multiply_numbers<F: Fn(FloatQuery) -> FloatAnswer>(lhs: Numeric, rhs: Numeric, floats: &F) -> (n: Numeric)
    requires
        float_service(*floats),
    ensures
        n == spec_multiply_numbers(*floats, lhs, rhs),
{
    match (lhs, rhs) {
        (Numeric::Int(a), Numeric::Int(b)) => match a.checked_mul(b) {
            Some(c) => Numeric::Int(c),
            None => float_op(FloatArith::Multiply, lhs, rhs, floats),
        },
        _ => float_op(FloatArith::Multiply, lhs, rhs, floats),
    }
}

/// The quotient of two numbers (see [`spec_divide_numbers`]).
pub fn divide_numbers<F: Fn(FloatQuery) -> FloatAnswer>(lhs: Numeric, rhs: Numeric, floats: &F) -> (r: Result<Numeric, EvaluationError>)
    requires
        float_service(*floats),
    ensures
        number_outcome(r) == spec_divide_numbers(*floats, lhs, rhs),
{
    if rhs.is_zero() {
        return Err(EvaluationError::DivisionByZero);
    }
    match (lhs, rhs) {
        (Numeric::Int(a), Numeric::Int(b)) => {
            if a.checked_rem(b) == Some(0i64) {
                match a.checked_div(b) {
                    Some(c) => Ok(Numeric::Int(c)),
                    None => Err(EvaluationError::DivisionByZero),
                }
            } else {
                Ok(float_op(FloatArith::Divide, lhs, rhs, floats))
            }
        },
        _ => Ok(float_op(FloatArith::Divide, lhs, rhs, floats)),
    }
}

/// The remainder of two numbers (see [`spec_modulo_numbers`]).
pub fn modulo_numbers<F: Fn(FloatQuery) -> FloatAnswer>(lhs: Numeric, rhs: Numeric, floats: &F) -> (r: Result<Numeric, EvaluationError>)
    requires
        float_service(*floats),
    ensures
        number_outcome(r) == spec_modulo_numbers(*floats, lhs, rhs),
{
    if rhs.is_zero() {
        return Err(EvaluationError::DivisionByZero);
    }
    match (lhs, rhs) {
        (Numeric::Int(a), Numeric::Int(b)) => match a.checked_rem(b) {
            Some(c) => Ok(Numeric::Int(c)),
            None => Ok(float_op(FloatArith::Remainder, lhs, rhs, floats)),
        },
        _ => Ok(float_op(FloatArith::Remainder, lhs, rhs, floats)),
    }
}

// ---------------------------------------------------------------------------
// Whole floats
// ---------------------------------------------------------------------------

/// The float is neither infinite nor NaN.
pub open spec fn float_is_finite(b: u64) -> bool {
    (b >> 52u64) & 0x7ffu64 != 0x7ffu64
}

/// The float has no fractional part (`fract() == 0.0`).
pub open spec fn float_is_whole<F: Fn(FloatQuery) -> FloatAnswer>(f: F, b: u64) -> bool {
    float_eq(float_answer_bits(f, QueryModel::Fract(b)), 0)
}

/// The float's integer part, saturated to `i128`.
pub open spec fn float_trunc<F: Fn(FloatQuery) -> FloatAnswer>(f: F, b: u64) -> i128 {
    float_answer_whole(f, QueryModel::Truncate(b))
}

/// `w` saturated to the range of `lo..=hi`.
pub open spec fn clamp(w: int, lo: int, hi: int) -> int {
    if w < lo {
        lo
    } else if w > hi {
        hi
    } else {
        w
    }
}

/// `==` on numbers across kinds: an integer equals a finite whole float
/// within the `i64` range whose integer part is that integer.
pub open spec fn spec_numeric_equal<F: Fn(FloatQuery) -> FloatAnswer>(f: F, l: Numeric, r: Numeric) -> bool {
    match (l, r) {
        (Numeric::Int(a), Numeric::Int(b)) => a == b,
        (Numeric::Float(a), Numeric::Float(b)) => float_eq(a, b),
        (Numeric::Int(i), Numeric::Float(x)) => whole_equals(f, x, i),
        (Numeric::Float(x), Numeric::Int(i)) => whole_equals(f, x, i),
    }
}

pub open spec fn whole_equals<F: Fn(FloatQuery) -> FloatAnswer>(f: F, x: u64, i: i64) -> bool {
    float_is_finite(x) && float_is_whole(f, x) && !float_lt(x, float_of_int(f, i64::MIN))
        && !float_lt(float_of_int(f, i64::MAX), x) && clamp(
        float_trunc(f, x) as int,
        i64::MIN as int,
        i64::MAX as int,
    ) == i as int
}

fn is_finite_bits(b: u64) -> (r: bool)
    ensures
        r == float_is_finite(b),
{
    (b >> 52u64) & 0x7ffu64 != 0x7ffu64
}

fn is_whole_float<F: Fn(FloatQuery) -> FloatAnswer>(b: u64, floats: &F) -> (r: bool)
    requires
        float_service(*floats),
    ensures
        r == float_is_whole(*floats, b),
{
    let fr = float_bits_answer(floats, FloatQuery::Fract(b));
    float_bits_eq(fr, 0)
}

fn whole_equals_of<F: Fn(FloatQuery) -> FloatAnswer>(x: u64, i: i64, floats: &F) -> (r: bool)
    requires
        float_service(*floats),
    ensures
        r == whole_equals(*floats, x, i),
{
    if !is_finite_bits(x) || !is_whole_float(x, floats) {
        return false;
    }
    let lo = float_from_int(floats, i64::MIN);
    let hi = float_from_int(floats, i64::MAX);
    if float_bits_lt(x, lo) || float_bits_lt(hi, x) {
        return false;
    }
    let w = float_whole_answer(floats, FloatQuery::Truncate(x));
    let c: i128 = if w < (i64::MIN as i128) {
        i64::MIN as i128
    } else if w > (i64::MAX as i128) {
        i64::MAX as i128
    } else {
        w
    };
    c == (i as i128)
}

/// Whether two numbers are equal (see [`spec_numeric_equal`]).
pub fn numeric_equal<F: Fn(FloatQuery) -> FloatAnswer>(lhs: Numeric, rhs: Numeric, floats: &F) -> (r: bool)
    requires
        float_service(*floats),
    ensures
        r == spec_numeric_equal(*floats, lhs, rhs),
{
    match (lhs, rhs) {
        (Numeric::Int(a), Numeric::Int(b)) => a == b,
        (Numeric::Float(a), Numeric::Float(b)) => float_bits_eq(a, b),
        (Numeric::Int(i), Numeric::Float(x)) => whole_equals_of(x, i, floats),
        (Numeric::Float(x), Numeric::Int(i)) => whole_equals_of(x, i, floats),
    }
}

/// A number as a path key: an integer's digits, a whole float's text with
/// no fractional digits; no key for any other float.
pub open spec fn spec_numeric_path_key<F: Fn(FloatQuery) -> FloatAnswer>(f: F, n: Numeric) -> Option<Seq<char>> {
    match n {
        Numeric::Int(v) => Some(int_decimal(v as int)),
        Numeric::Float(x) => if float_is_whole(f, x) {
            Some(float_text(f, QueryModel::WholeText(x)))
        } else {
            None
        },
    }
}

/// A number as an index: an integer that fits in a `usize`, or a whole
/// float from zero up to the float of `usize::MAX`, its integer part
/// saturated to `usize`.
pub open spec fn spec_numeric_index<F: Fn(FloatQuery) -> FloatAnswer>(f: F, n: Numeric) -> Option<usize> {
    match n {
        Numeric::Int(v) => if 0 <= v <= usize::MAX {
            Some(v as usize)
        } else {
            None
        },
        Numeric::Float(x) => if float_is_whole(f, x) && !float_lt(x, 0) && !float_lt(
            float_answer_bits(f, QueryModel::FromSize(usize::MAX)),
            x,
        ) {
            Some(clamp(float_trunc(f, x) as int, 0, usize::MAX as int) as usize)
        } else {
            None
        },
    }
}

/// The path key of a number (see [`spec_numeric_path_key`]).
pub fn numeric_path_key<F: Fn(FloatQuery) -> FloatAnswer>(value: Numeric, floats: &F) -> (r: Option<String>)
    requires
        float_service(*floats),
    ensures
        r matches Some(t) ==> spec_numeric_path_key(*floats, value) == Some(t@),
        r is None ==> spec_numeric_path_key(*floats, value) is None,
{
    match value {
        Numeric::Int(v) => Some(i64_to_decimal(v)),
        Numeric::Float(x) => if is_whole_float(x, floats) {
            Some(float_text_of(floats, FloatQuery::WholeText(x)))
        } else {
            None
        },
    }
}

/// Saturates `w` to `usize`.
fn clamp_to_usize(w: i128) -> (r: usize)
    ensures
        r as int == clamp(w as int, 0, usize::MAX as int),
{
    if w < 0 {
        0
    } else if w > (usize::MAX as i128) {
        usize::MAX
    } else {
        w as usize
    }
}

/// The index of a number (see [`spec_numeric_index`]).
pub fn numeric_index<F: Fn(FloatQuery) -> FloatAnswer>(value: Numeric, floats: &F) -> (r: Option<usize>)
    requires
        float_service(*floats),
    ensures
        r == spec_numeric_index(*floats, value),
{
    match value {
        Numeric::Int(v) => {
            if 0 <= v && (v as i128) <= (usize::MAX as i128) {
                Some(v as usize)
            } else {
                None
            }
        },
        Numeric::Float(x) => {
            if !is_whole_float(x, floats) || float_bits_lt(x, 0) {
                return None;
            }
            let top = float_bits_answer(floats, FloatQuery::FromSize(usize::MAX));
            if float_bits_lt(top, x) {
                return None;
            }
            let w = float_whole_answer(floats, FloatQuery::Truncate(x));
            Some(clamp_to_usize(w))
        },
    }
}

} // verus!
