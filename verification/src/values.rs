//! The operators on values.
use crate::errors::{outcome_of, EvalError, EvalErrorView, EvalResult, FloatOp, FloatRequest};
use crate::model::{views, Expression, Float, Literal, LiteralView, MethodName};
use crate::semantics::{
    applied, fits_i64, float_bits_equal, int_outcome, inverted, inverted_outcome, lists_equal,
    magnitude, negated, trees_equal, values_equal, Operator,
};
use crate::text::{bytes_equal, bytes_less, chars_less, chars_of};
use vstd::arithmetic::power::pow;
use vstd::prelude::*;
use vstd::string::StringExecFns;

verus! {

// ---------------------------------------------------------------------------
// Equality
// ---------------------------------------------------------------------------

/// Equality of two binary64 values given by their bits.
pub fn float_equal(a: u64, b: u64) -> (r: bool)
    ensures
        r == float_bits_equal(a, b),
{
    let x: u64 = if a >= 0x8000_0000_0000_0000 {
        a - 0x8000_0000_0000_0000
    } else {
        a
    };
    let y: u64 = if b >= 0x8000_0000_0000_0000 {
        b - 0x8000_0000_0000_0000
    } else {
        b
    };
    if x > 0x7ff0_0000_0000_0000 || y > 0x7ff0_0000_0000_0000 {
        false
    } else {
        a == b || (x == 0 && y == 0)
    }
}

/// Whether two values are equal, as `contains` compares them.
pub fn literals_equal(a: &Literal, b: &Literal) -> (r: bool)
    ensures
        r == values_equal(a@, b@),
    decreases a,
{
    match (a, b) {
        (Literal::I64(x), Literal::I64(y)) => *x == *y,
        (Literal::F64(x), Literal::F64(y)) => match (x, y) {
            (Float::Bits(p), Float::Bits(q)) => float_equal(*p, *q),
            (Float::Decimal(p), Float::Decimal(q)) => *p == *q,
            _ => false,
        },
        (Literal::Bool(x), Literal::Bool(y)) => *x == *y,
        (Literal::String(x), Literal::String(y)) => *x == *y,
        (Literal::Bytes(x), Literal::Bytes(y)) => bytes_equal(x, y),
        (Literal::List(x), Literal::List(y)) => expression_lists_equal(x, y),
        _ => false,
    }
}

/// Whether two vectors of expressions have the same length and, place by
/// place, equal trees.
pub fn expression_lists_equal(a: &Vec<Expression>, b: &Vec<Expression>) -> (r: bool)
    ensures
        r == lists_equal(views(a@), views(b@)),
    decreases a,
{
    if a.len() != b.len() {
        return false;
    }
    let mut i: usize = 0;
    while i < a.len()
        invariant
            i <= a.len(),
            a.len() == b.len(),
            forall|j: int|
                0 <= j < i ==> trees_equal(
                    #[trigger] views(a@)[j],
                    views(b@)[j],
                ),
        decreases a.len() - i,
    {
        if !expressions_equal(&a[i], &b[i]) {
            assert(!trees_equal(
                views(a@)[i as int],
                views(b@)[i as int],
            ));
            return false;
        }
        i += 1;
    }
    true
}

/// Whether two trees have the same shape and equal literals at their leaves.
pub fn expressions_equal(a: &Expression, b: &Expression) -> (r: bool)
    ensures
        r == trees_equal(a@, b@),
    decreases a,
{
    match (a, b) {
        (Expression::Eq(a1, a2), Expression::Eq(b1, b2)) => expressions_equal(a1, b1)
            && expressions_equal(a2, b2),
        (Expression::Neq(a1, a2), Expression::Neq(b1, b2)) => expressions_equal(a1, b1)
            && expressions_equal(a2, b2),
        (Expression::Lt(a1, a2), Expression::Lt(b1, b2)) => expressions_equal(a1, b1)
            && expressions_equal(a2, b2),
        (Expression::Lte(a1, a2), Expression::Lte(b1, b2)) => expressions_equal(a1, b1)
            && expressions_equal(a2, b2),
        (Expression::Gte(a1, a2), Expression::Gte(b1, b2)) => expressions_equal(a1, b1)
            && expressions_equal(a2, b2),
        (Expression::Gt(a1, a2), Expression::Gt(b1, b2)) => expressions_equal(a1, b1)
            && expressions_equal(a2, b2),
        (Expression::Add(a1, a2), Expression::Add(b1, b2)) => expressions_equal(a1, b1)
            && expressions_equal(a2, b2),
        (Expression::Sub(a1, a2), Expression::Sub(b1, b2)) => expressions_equal(a1, b1)
            && expressions_equal(a2, b2),
        (Expression::Mul(a1, a2), Expression::Mul(b1, b2)) => expressions_equal(a1, b1)
            && expressions_equal(a2, b2),
        (Expression::Div(a1, a2), Expression::Div(b1, b2)) => expressions_equal(a1, b1)
            && expressions_equal(a2, b2),
        (Expression::Mod(a1, a2), Expression::Mod(b1, b2)) => expressions_equal(a1, b1)
            && expressions_equal(a2, b2),
        (Expression::Neg(a1), Expression::Neg(b1)) => expressions_equal(a1, b1),
        (Expression::Not(a1), Expression::Not(b1)) => expressions_equal(a1, b1),
        (Expression::Method(ar, an, aa), Expression::Method(br, bn, ba)) => expressions_equal(
            ar,
            br,
        ) && same_method(*an, *bn) && expression_lists_equal(aa, ba),
        (Expression::Lit(x), Expression::Lit(y)) => literals_equal(x, y),
        _ => false,
    }
}

/// Whether two method names are the same.
pub fn same_method(a: MethodName, b: MethodName) -> (r: bool)
    ensures
        r == (a == b),
{
    match (a, b) {
        (MethodName::Len, MethodName::Len) => true,
        (MethodName::Contains, MethodName::Contains) => true,
        (MethodName::Pow, MethodName::Pow) => true,
        _ => false,
    }
}

// ---------------------------------------------------------------------------
// The operators
// ---------------------------------------------------------------------------

/// The magnitude of a power of a base of magnitude two or more at least
/// doubles with each step of the exponent.
proof fn lemma_power_doubles(a: int, k: nat, n: nat)
    requires
        a <= -2 || a >= 2,
        k < n,
    ensures
        magnitude(pow(a, n)) >= 2 * magnitude(pow(a, k)),
    decreases n,
{
    reveal(pow);
    let before = pow(a, (n - 1) as nat);
    assert(magnitude(a * before) >= 2 * magnitude(before)) by (nonlinear_arith)
        requires
            a <= -2 || a >= 2,
    ;
    if k < n - 1 {
        lemma_power_doubles(a, k, (n - 1) as nat);
    }
}

/// The powers of -1 alternate between 1 and -1.
proof fn lemma_power_of_minus_one(n: nat)
    ensures
        pow(-1, n) == (if n % 2 == 0 {
            1int
        } else {
            -1int
        }),
    decreases n,
{
    reveal(pow);
    if n > 0 {
        lemma_power_of_minus_one((n - 1) as nat);
    }
}

/// The integer power `a` to the `n`, where it is in the range of `i64`.
pub fn int_pow(a: i64, n: u64) -> (r: Option<i64>)
    ensures
        r == (if fits_i64(pow(a as int, n as nat)) {
            Some(pow(a as int, n as nat) as i64)
        } else {
            None
        }),
{
    proof {
        vstd::arithmetic::power::lemma_pow0(a as int);
    }
    if n == 0 {
        return Some(1);
    }
    if a == 0 {
        proof {
            vstd::arithmetic::power::lemma0_pow(n as nat);
        }
        return Some(0);
    }
    if a == 1 {
        proof {
            vstd::arithmetic::power::lemma1_pow(n as nat);
        }
        return Some(1);
    }
    if a == -1 {
        proof {
            lemma_power_of_minus_one(n as nat);
        }
        return if n % 2 == 0 {
            Some(1)
        } else {
            Some(-1)
        };
    }
    let mut acc: i64 = 1;
    let mut i: u64 = 0;
    while i < n
        invariant
            i <= n,
            a <= -2 || a >= 2,
            acc == pow(a as int, i as nat),
        decreases n - i,
    {
        proof {
            reveal(pow);
            assert(acc * a == a * acc) by (nonlinear_arith);
        }
        match acc.checked_mul(a) {
            Some(next) => {
                acc = next;
                i += 1;
            },
            None => {
                proof {
                    if i + 1 < n {
                        lemma_power_doubles(a as int, (i + 1) as nat, n as nat);
                    }
                }
                return None;
            },
        }
    }
    Some(acc)
}

/// An optional integer as the result of an evaluation: none is an overflow.
pub(crate) fn checked(value: Option<i64>) -> (r: EvalResult)
    ensures
        outcome_of(r) == (match value {
            Some(x) => Ok::<LiteralView, EvalErrorView>(LiteralView::I64(x)),
            None => Err(EvalErrorView::Overflow),
        }),
{
    match value {
        Some(x) => Ok(Literal::I64(x)),
        None => Err(EvalError::Overflow),
    }
}

/// A length as the result of an evaluation.
pub(crate) fn length_value(length: usize) -> (r: EvalResult)
    ensures
        outcome_of(r) == int_outcome(length as int),
{
    if length as u64 > 0x7fff_ffff_ffff_ffff {
        Err(EvalError::Overflow)
    } else {
        Ok(Literal::I64(length as i64))
    }
}

/// Arithmetic negation of a value.
pub fn negate(value: Literal) -> (r: EvalResult)
    ensures
        outcome_of(r) == negated(value@),
{
    match value {
        Literal::I64(x) => if x == i64::MIN {
            Err(EvalError::Overflow)
        } else {
            Ok(Literal::I64(-x))
        },
        _ => Err(EvalError::InvalidTypes),
    }
}

/// Logical negation of a value.
pub fn invert(value: Literal) -> (r: EvalResult)
    ensures
        outcome_of(r) == inverted(value@),
{
    match value {
        Literal::Bool(x) => Ok(Literal::Bool(!x)),
        _ => Err(EvalError::InvalidTypes),
    }
}

/// A binary operation on two values.
pub fn apply(op: Operator, x: Literal, y: Literal) -> (r: EvalResult)
    ensures
        outcome_of(r) == applied(op, x@, y@, None),
{
    match op {
        Operator::Equal => match (x, y) {
            (Literal::I64(a), Literal::I64(b)) => Ok(Literal::Bool(a == b)),
            (Literal::String(a), Literal::String(b)) => Ok(Literal::Bool(a == b)),
            (Literal::Bytes(a), Literal::Bytes(b)) => Ok(Literal::Bool(bytes_equal(&a, &b))),
            _ => Err(EvalError::InvalidTypes),
        },
        Operator::Less => match (x, y) {
            (Literal::I64(a), Literal::I64(b)) => Ok(Literal::Bool(a < b)),
            (Literal::String(a), Literal::String(b)) => {
                let p = chars_of(a.as_str());
                let q = chars_of(b.as_str());
                Ok(Literal::Bool(chars_less(&p, &q)))
            },
            (Literal::Bytes(a), Literal::Bytes(b)) => Ok(Literal::Bool(bytes_less(&a, &b))),
            _ => Err(EvalError::InvalidTypes),
        },
        Operator::AtMost => match (x, y) {
            (Literal::I64(a), Literal::I64(b)) => Ok(Literal::Bool(a <= b)),
            (Literal::String(a), Literal::String(b)) => {
                let p = chars_of(a.as_str());
                let q = chars_of(b.as_str());
                Ok(Literal::Bool(!chars_less(&q, &p)))
            },
            (Literal::Bytes(a), Literal::Bytes(b)) => Ok(Literal::Bool(!bytes_less(&b, &a))),
            _ => Err(EvalError::InvalidTypes),
        },
        Operator::Add => match (x, y) {
            (Literal::I64(a), Literal::I64(b)) => checked(a.checked_add(b)),
            (Literal::String(a), Literal::String(b)) => Ok(Literal::String(a.concat(b.as_str()))),
            (Literal::F64(Float::Bits(a)), Literal::F64(Float::Bits(b))) => Err(
                EvalError::NeedsFloat(FloatRequest::Binary(FloatOp::Add, a, b)),
            ),
            _ => Err(EvalError::InvalidTypes),
        },
        Operator::Sub => match (x, y) {
            (Literal::I64(a), Literal::I64(b)) => checked(a.checked_sub(b)),
            (Literal::F64(Float::Bits(a)), Literal::F64(Float::Bits(b))) => Err(
                EvalError::NeedsFloat(FloatRequest::Binary(FloatOp::Sub, a, b)),
            ),
            _ => Err(EvalError::InvalidTypes),
        },
        Operator::Mul => match (x, y) {
            (Literal::I64(a), Literal::I64(b)) => checked(a.checked_mul(b)),
            (Literal::F64(Float::Bits(a)), Literal::F64(Float::Bits(b))) => Err(
                EvalError::NeedsFloat(FloatRequest::Binary(FloatOp::Mul, a, b)),
            ),
            _ => Err(EvalError::InvalidTypes),
        },
        Operator::Div => match (x, y) {
            (Literal::I64(a), Literal::I64(b)) => if b == 0 {
                Err(EvalError::DivideByZero)
            } else {
                checked(a.checked_div(b))
            },
            (Literal::F64(Float::Bits(a)), Literal::F64(Float::Bits(b))) => Err(
                EvalError::NeedsFloat(FloatRequest::Binary(FloatOp::Div, a, b)),
            ),
            _ => Err(EvalError::InvalidTypes),
        },
        Operator::Mod => match (x, y) {
            (Literal::I64(a), Literal::I64(b)) => if b == 0 {
                Err(EvalError::DivideByZero)
            } else {
                checked(a.checked_rem(b))
            },
            _ => Err(EvalError::InvalidTypes),
        },
    }
}

/// Logical negation of the result of an evaluation.
pub(crate) fn invert_result(operand: EvalResult) -> (r: EvalResult)
    ensures
        outcome_of(r) == inverted_outcome(outcome_of(operand)),
{
    match operand {
        Ok(x) => invert(x),
        Err(error) => Err(error),
    }
}

} // verus!
