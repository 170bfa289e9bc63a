//! What a tree evaluates to.
use crate::errors::{EvalErrorView, FloatOp, FloatRequestView, FloatUnit, Outcome};
use crate::model::{ExpressionView, FloatView, LiteralView, MethodName};
use crate::text::{byte_values, code_points, lex_less};
use vstd::arithmetic::power::pow;
use vstd::prelude::*;

verus! {

// ---------------------------------------------------------------------------
// Numbers
// ---------------------------------------------------------------------------

/// A bit pattern without its sign bit.
pub open spec fn magnitude_bits(bits: u64) -> int {
    if bits >= 0x8000_0000_0000_0000 {
        bits - 0x8000_0000_0000_0000
    } else {
        bits as int
    }
}

/// Whether a bit pattern is a NaN of binary64: all exponent bits set and a
/// fraction that is not zero.
pub open spec fn is_nan_bits(bits: u64) -> bool {
    magnitude_bits(bits) > 0x7ff0_0000_0000_0000
}

/// Equality of two binary64 values given by their bits, as IEEE 754 has it: a
/// NaN equals nothing, the two zeros equal each other, and any other value
/// equals only itself.
pub open spec fn float_bits_equal(a: u64, b: u64) -> bool {
    &&& !is_nan_bits(a)
    &&& !is_nan_bits(b)
    &&& (a == b || (magnitude_bits(a) == 0 && magnitude_bits(b) == 0))
}

/// Whether an integer is in the range of `i64`.
pub open spec fn fits_i64(x: int) -> bool {
    i64::MIN <= x <= i64::MAX
}

/// An integer result as an outcome: the value if it is in range, else overflow.
pub open spec fn int_outcome(x: int) -> Outcome {
    if fits_i64(x) {
        Ok(LiteralView::I64(x as i64))
    } else {
        Err(EvalErrorView::Overflow)
    }
}

/// The absolute value of an integer.
pub open spec fn magnitude(x: int) -> int {
    if x < 0 {
        -x
    } else {
        x
    }
}

/// The quotient of a division that rounds towards zero.
pub open spec fn quotient(a: int, b: int) -> int
    recommends
        b != 0,
{
    if (a < 0) == (b < 0) {
        magnitude(a) / magnitude(b)
    } else {
        -(magnitude(a) / magnitude(b))
    }
}

/// The remainder of a division that rounds towards zero: it has the sign of
/// the dividend.
pub open spec fn remainder(a: int, b: int) -> int
    recommends
        b != 0,
{
    if a < 0 {
        -(magnitude(a) % magnitude(b))
    } else {
        magnitude(a) % magnitude(b)
    }
}

/// The exponent that an integer power is taken with: the low 32 bits of the
/// argument, read as an unsigned number.
pub open spec fn exponent_of(b: i64) -> nat {
    (b as int % 0x1_0000_0000) as nat
}

// ---------------------------------------------------------------------------
// Equality of values
// ---------------------------------------------------------------------------

/// Whether two values are equal, as `contains` compares them: values of
/// different types are never equal; integers, booleans, strings and bytes
/// are equal when they hold the same; floating-point numbers by
/// [`float_bits_equal`]; lists when they have the same length and equal
/// elements, compared as trees without evaluating them.
pub open spec fn values_equal(a: LiteralView, b: LiteralView) -> bool
    decreases a,
{
    match (a, b) {
        (LiteralView::I64(x), LiteralView::I64(y)) => x == y,
        (LiteralView::F64(x), LiteralView::F64(y)) => floats_equal(x, y),
        (LiteralView::Bool(x), LiteralView::Bool(y)) => x == y,
        (LiteralView::String(x), LiteralView::String(y)) => x == y,
        (LiteralView::Bytes(x), LiteralView::Bytes(y)) => x == y,
        (LiteralView::List(x), LiteralView::List(y)) => lists_equal(x, y),
        _ => false,
    }
}

/// Equality of two floating-point numbers: a literal that has not been
/// converted equals only a literal of the same text.
pub open spec fn floats_equal(a: FloatView, b: FloatView) -> bool {
    match (a, b) {
        (FloatView::Bits(x), FloatView::Bits(y)) => float_bits_equal(x, y),
        (FloatView::Decimal(x), FloatView::Decimal(y)) => x == y,
        _ => false,
    }
}

/// Whether two sequences of expressions have the same length and, place by
/// place, equal trees.
pub open spec fn lists_equal(a: Seq<ExpressionView>, b: Seq<ExpressionView>) -> bool
    decreases a,
{
    &&& a.len() == b.len()
    &&& forall|i: int| 0 <= i < a.len() ==> trees_equal(#[trigger] a[i], b[i])
}

/// Whether two trees have the same shape and equal literals at their leaves.
pub open spec fn trees_equal(a: ExpressionView, b: ExpressionView) -> bool
    decreases a,
{
    match (a, b) {
        (ExpressionView::Eq(a1, a2), ExpressionView::Eq(b1, b2)) => trees_equal(*a1, *b1)
            && trees_equal(*a2, *b2),
        (ExpressionView::Neq(a1, a2), ExpressionView::Neq(b1, b2)) => trees_equal(*a1, *b1)
            && trees_equal(*a2, *b2),
        (ExpressionView::Lt(a1, a2), ExpressionView::Lt(b1, b2)) => trees_equal(*a1, *b1)
            && trees_equal(*a2, *b2),
        (ExpressionView::Lte(a1, a2), ExpressionView::Lte(b1, b2)) => trees_equal(*a1, *b1)
            && trees_equal(*a2, *b2),
        (ExpressionView::Gte(a1, a2), ExpressionView::Gte(b1, b2)) => trees_equal(*a1, *b1)
            && trees_equal(*a2, *b2),
        (ExpressionView::Gt(a1, a2), ExpressionView::Gt(b1, b2)) => trees_equal(*a1, *b1)
            && trees_equal(*a2, *b2),
        (ExpressionView::Add(a1, a2), ExpressionView::Add(b1, b2)) => trees_equal(*a1, *b1)
            && trees_equal(*a2, *b2),
        (ExpressionView::Sub(a1, a2), ExpressionView::Sub(b1, b2)) => trees_equal(*a1, *b1)
            && trees_equal(*a2, *b2),
        (ExpressionView::Mul(a1, a2), ExpressionView::Mul(b1, b2)) => trees_equal(*a1, *b1)
            && trees_equal(*a2, *b2),
        (ExpressionView::Div(a1, a2), ExpressionView::Div(b1, b2)) => trees_equal(*a1, *b1)
            && trees_equal(*a2, *b2),
        (ExpressionView::Mod(a1, a2), ExpressionView::Mod(b1, b2)) => trees_equal(*a1, *b1)
            && trees_equal(*a2, *b2),
        (ExpressionView::Neg(a1), ExpressionView::Neg(b1)) => trees_equal(*a1, *b1),
        (ExpressionView::Not(a1), ExpressionView::Not(b1)) => trees_equal(*a1, *b1),
        (ExpressionView::Method(ar, an, aa), ExpressionView::Method(br, bn, ba)) => trees_equal(
            *ar,
            *br,
        ) && an == bn && lists_equal(aa, ba),
        (ExpressionView::Lit(x), ExpressionView::Lit(y)) => values_equal(x, y),
        _ => false,
    }
}

// ---------------------------------------------------------------------------
// The operators
// ---------------------------------------------------------------------------

/// The result of a floating-point computation: what the host's function gives
/// for it, or, with no host, the request itself as the reason for stopping.
pub open spec fn float_outcome(request: FloatRequestView, unit: FloatUnit) -> Outcome {
    match unit {
        Some(answer) => Ok(LiteralView::F64(FloatView::Bits(answer(request)))),
        None => Err(EvalErrorView::NeedsFloat(request)),
    }
}

/// Arithmetic negation: defined on integers only.
pub open spec fn negated(value: LiteralView) -> Outcome {
    match value {
        LiteralView::I64(x) => int_outcome(-x),
        _ => Err(EvalErrorView::InvalidTypes),
    }
}

/// Logical negation: defined on booleans only.
pub open spec fn inverted(value: LiteralView) -> Outcome {
    match value {
        LiteralView::Bool(x) => Ok(LiteralView::Bool(!x)),
        _ => Err(EvalErrorView::InvalidTypes),
    }
}

/// `==` on two values: defined on two integers, two strings or two byte
/// strings.
pub open spec fn equal_of(x: LiteralView, y: LiteralView) -> Outcome {
    match (x, y) {
        (LiteralView::I64(a), LiteralView::I64(b)) => Ok(LiteralView::Bool(a == b)),
        (LiteralView::String(a), LiteralView::String(b)) => Ok(LiteralView::Bool(a == b)),
        (LiteralView::Bytes(a), LiteralView::Bytes(b)) => Ok(LiteralView::Bool(a == b)),
        _ => Err(EvalErrorView::InvalidTypes),
    }
}

/// `<` on two values: integers by value, strings lexicographically by code
/// point, byte strings lexicographically by byte.
pub open spec fn less_of(x: LiteralView, y: LiteralView) -> Outcome {
    match (x, y) {
        (LiteralView::I64(a), LiteralView::I64(b)) => Ok(LiteralView::Bool(a < b)),
        (LiteralView::String(a), LiteralView::String(b)) => Ok(
            LiteralView::Bool(lex_less(code_points(a), code_points(b))),
        ),
        (LiteralView::Bytes(a), LiteralView::Bytes(b)) => Ok(
            LiteralView::Bool(lex_less(byte_values(a), byte_values(b))),
        ),
        _ => Err(EvalErrorView::InvalidTypes),
    }
}

/// `<=` on two values: true where the right operand is not less than the
/// left.
pub open spec fn at_most_of(x: LiteralView, y: LiteralView) -> Outcome {
    match (x, y) {
        (LiteralView::I64(a), LiteralView::I64(b)) => Ok(LiteralView::Bool(a <= b)),
        (LiteralView::String(a), LiteralView::String(b)) => Ok(
            LiteralView::Bool(!lex_less(code_points(b), code_points(a))),
        ),
        (LiteralView::Bytes(a), LiteralView::Bytes(b)) => Ok(
            LiteralView::Bool(!lex_less(byte_values(b), byte_values(a))),
        ),
        _ => Err(EvalErrorView::InvalidTypes),
    }
}

/// `+`: the sum of two integers, the concatenation of two strings, or the
/// floating-point sum.
pub open spec fn sum_of(x: LiteralView, y: LiteralView, unit: FloatUnit) -> Outcome {
    match (x, y) {
        (LiteralView::I64(a), LiteralView::I64(b)) => int_outcome(a + b),
        (LiteralView::String(a), LiteralView::String(b)) => Ok(LiteralView::String(a + b)),
        (LiteralView::F64(FloatView::Bits(a)), LiteralView::F64(FloatView::Bits(b))) => float_outcome(
            FloatRequestView::Binary(FloatOp::Add, a, b),
            unit,
        ),
        _ => Err(EvalErrorView::InvalidTypes),
    }
}

/// `-` on two integers or two floating-point numbers.
pub open spec fn difference_of(x: LiteralView, y: LiteralView, unit: FloatUnit) -> Outcome {
    match (x, y) {
        (LiteralView::I64(a), LiteralView::I64(b)) => int_outcome(a - b),
        (LiteralView::F64(FloatView::Bits(a)), LiteralView::F64(FloatView::Bits(b))) => float_outcome(
            FloatRequestView::Binary(FloatOp::Sub, a, b),
            unit,
        ),
        _ => Err(EvalErrorView::InvalidTypes),
    }
}

/// `*` on two integers or two floating-point numbers.
pub open spec fn product_of(x: LiteralView, y: LiteralView, unit: FloatUnit) -> Outcome {
    match (x, y) {
        (LiteralView::I64(a), LiteralView::I64(b)) => int_outcome(a * b),
        (LiteralView::F64(FloatView::Bits(a)), LiteralView::F64(FloatView::Bits(b))) => float_outcome(
            FloatRequestView::Binary(FloatOp::Mul, a, b),
            unit,
        ),
        _ => Err(EvalErrorView::InvalidTypes),
    }
}

/// `/`: on integers the quotient rounded towards zero, with division by zero
/// an error; on floating-point numbers the division is passed on whatever the
/// divisor is.
pub open spec fn quotient_of(x: LiteralView, y: LiteralView, unit: FloatUnit) -> Outcome {
    match (x, y) {
        (LiteralView::I64(a), LiteralView::I64(b)) => if b == 0 {
            Err(EvalErrorView::DivideByZero)
        } else {
            int_outcome(quotient(a as int, b as int))
        },
        (LiteralView::F64(FloatView::Bits(a)), LiteralView::F64(FloatView::Bits(b))) => float_outcome(
            FloatRequestView::Binary(FloatOp::Div, a, b),
            unit,
        ),
        _ => Err(EvalErrorView::InvalidTypes),
    }
}

/// `%`: on integers only, the remainder of the division rounded towards
/// zero. The smallest integer has no remainder by -1, as it has no quotient.
pub open spec fn remainder_of(x: LiteralView, y: LiteralView) -> Outcome {
    match (x, y) {
        (LiteralView::I64(a), LiteralView::I64(b)) => if b == 0 {
            Err(EvalErrorView::DivideByZero)
        } else if a == i64::MIN && b == -1 {
            Err(EvalErrorView::Overflow)
        } else {
            int_outcome(remainder(a as int, b as int))
        },
        _ => Err(EvalErrorView::InvalidTypes),
    }
}

/// The binary operations that the others are made of.
#[derive(Debug, PartialEq, Eq, Clone, Copy)]
pub enum Operator {
    Equal,
    Less,
    AtMost,
    Add,
    Sub,
    Mul,
    Div,
    Mod,
}

/// A binary operation on two values.
pub open spec fn applied(op: Operator, x: LiteralView, y: LiteralView, unit: FloatUnit) -> Outcome {
    match op {
        Operator::Equal => equal_of(x, y),
        Operator::Less => less_of(x, y),
        Operator::AtMost => at_most_of(x, y),
        Operator::Add => sum_of(x, y, unit),
        Operator::Sub => difference_of(x, y, unit),
        Operator::Mul => product_of(x, y, unit),
        Operator::Div => quotient_of(x, y, unit),
        Operator::Mod => remainder_of(x, y),
    }
}

/// A binary operation on the outcomes of its operands: the left operand's
/// failure comes first, then the right operand's, then the operation.
pub open spec fn combined(op: Operator, left: Outcome, right: Outcome, unit: FloatUnit) -> Outcome {
    match left {
        Err(error) => Err(error),
        Ok(x) => match right {
            Err(error) => Err(error),
            Ok(y) => applied(op, x, y, unit),
        },
    }
}

/// A unary operation on the outcome of its operand.
pub open spec fn negated_outcome(operand: Outcome) -> Outcome {
    match operand {
        Err(error) => Err(error),
        Ok(x) => negated(x),
    }
}

/// Logical negation of the outcome of its operand.
pub open spec fn inverted_outcome(operand: Outcome) -> Outcome {
    match operand {
        Err(error) => Err(error),
        Ok(x) => inverted(x),
    }
}

// ---------------------------------------------------------------------------
// The methods
// ---------------------------------------------------------------------------

/// A length as an integer value.
pub open spec fn length_outcome(name: MethodName, count: nat, length: nat) -> Outcome {
    match name {
        MethodName::Len => if count == 0 {
            int_outcome(length as int)
        } else {
            Err(EvalErrorView::WrongArgumentCount(MethodName::Len))
        },
        _ => Err(EvalErrorView::IllegalType(name)),
    }
}

/// The integer power: the receiver raised to [`exponent_of`] the argument.
pub open spec fn int_power(a: i64, argument: Outcome) -> Outcome {
    match argument {
        Err(error) => Err(error),
        Ok(LiteralView::I64(b)) => int_outcome(pow(a as int, exponent_of(b))),
        Ok(_) => Err(EvalErrorView::IllegalType(MethodName::Pow)),
    }
}

/// The floating-point power, with a floating-point or an integer exponent.
pub open spec fn float_power(a: FloatView, argument: Outcome, unit: FloatUnit) -> Outcome {
    match argument {
        Err(error) => Err(error),
        Ok(exponent) => match (a, exponent) {
            (FloatView::Bits(x), LiteralView::F64(FloatView::Bits(y))) => float_outcome(
                FloatRequestView::Binary(FloatOp::Pow, x, y),
                unit,
            ),
            (FloatView::Bits(x), LiteralView::I64(n)) => float_outcome(
                FloatRequestView::PowInt(x, n),
                unit,
            ),
            _ => Err(EvalErrorView::IllegalType(MethodName::Pow)),
        },
    }
}

/// A method call on a value.
///
/// `count` is the number of arguments. `argument` is the outcome of the one
/// argument where there is exactly one, and else the error for a wrong number
/// of arguments. `found` is what `contains` comes to on a list (see
/// [`eval_core`]).
pub open spec fn method_outcome(
    receiver: LiteralView,
    name: MethodName,
    count: nat,
    argument: Outcome,
    found: Outcome,
    unit: FloatUnit,
) -> Outcome {
    match receiver {
        LiteralView::String(s) => length_outcome(name, count, s.len()),
        LiteralView::Bytes(b) => length_outcome(name, count, b.len()),
        LiteralView::I64(a) => match name {
            MethodName::Pow => int_power(a, argument),
            _ => Err(EvalErrorView::IllegalType(name)),
        },
        LiteralView::F64(a) => match name {
            MethodName::Pow => float_power(a, argument, unit),
            _ => Err(EvalErrorView::IllegalType(name)),
        },
        LiteralView::List(items) => match name {
            MethodName::Len => length_outcome(name, count, items.len()),
            MethodName::Contains => found,
            MethodName::Pow => Err(EvalErrorView::IllegalType(name)),
        },
        LiteralView::Bool(b) => Err(EvalErrorView::IllegalMethodCall(b, name)),
    }
}

// ---------------------------------------------------------------------------
// Evaluation
// ---------------------------------------------------------------------------

/// What a tree evaluates to once its floating-point literals are converted.
///
/// Operands are evaluated left before right and the first failure is the
/// result. `!=`, `>=` and `>` are the negations of `==`, `<` and `<=` on the
/// same operands. A method call evaluates its receiver first and goes by the
/// type of the value that comes out.
#[verifier::opaque]
pub open spec fn eval_core(e: ExpressionView, unit: FloatUnit) -> Outcome
    decreases e, 0nat,
{
    match e {
        ExpressionView::Lit(value) => Ok(value),
        ExpressionView::Neg(a) => negated_outcome(eval_core(*a, unit)),
        ExpressionView::Not(a) => inverted_outcome(eval_core(*a, unit)),
        ExpressionView::Eq(a, b) => combined(
            Operator::Equal,
            eval_core(*a, unit),
            eval_core(*b, unit),
            unit,
        ),
        ExpressionView::Neq(a, b) => inverted_outcome(
            combined(Operator::Equal, eval_core(*a, unit), eval_core(*b, unit), unit),
        ),
        ExpressionView::Lt(a, b) => combined(
            Operator::Less,
            eval_core(*a, unit),
            eval_core(*b, unit),
            unit,
        ),
        ExpressionView::Lte(a, b) => combined(
            Operator::AtMost,
            eval_core(*a, unit),
            eval_core(*b, unit),
            unit,
        ),
        ExpressionView::Gte(a, b) => inverted_outcome(
            combined(Operator::Less, eval_core(*a, unit), eval_core(*b, unit), unit),
        ),
        ExpressionView::Gt(a, b) => inverted_outcome(
            combined(Operator::AtMost, eval_core(*a, unit), eval_core(*b, unit), unit),
        ),
        ExpressionView::Add(a, b) => combined(
            Operator::Add,
            eval_core(*a, unit),
            eval_core(*b, unit),
            unit,
        ),
        ExpressionView::Sub(a, b) => combined(
            Operator::Sub,
            eval_core(*a, unit),
            eval_core(*b, unit),
            unit,
        ),
        ExpressionView::Mul(a, b) => combined(
            Operator::Mul,
            eval_core(*a, unit),
            eval_core(*b, unit),
            unit,
        ),
        ExpressionView::Div(a, b) => combined(
            Operator::Div,
            eval_core(*a, unit),
            eval_core(*b, unit),
            unit,
        ),
        ExpressionView::Mod(a, b) => combined(
            Operator::Mod,
            eval_core(*a, unit),
            eval_core(*b, unit),
            unit,
        ),
        ExpressionView::Method(receiver, name, args) => match eval_core(*receiver, unit) {
            Err(error) => Err(error),
            Ok(value) => {
                let argument = if args.len() == 1 {
                    eval_core(args[0], unit)
                } else {
                    Err(EvalErrorView::WrongArgumentCount(name))
                };
                // Only a list literal evaluates to a list: the items that
                // `contains` goes through are those of the literal.
                let found = match (*receiver, argument) {
                    (ExpressionView::Lit(LiteralView::List(items)), Ok(needle)) => scan(
                        items,
                        0,
                        needle,
                        None,
                        unit,
                    ),
                    _ => argument,
                };
                method_outcome(value, name, args.len(), argument, found, unit)
            },
        },
    }
}

/// What `contains` comes to from item `i` on, with `deferred` the last failure
/// among the items before.
///
/// The items are evaluated in order. The first one whose value equals the
/// needle makes the result true, whatever failed before it. An item that fails
/// is passed over and its failure remembered in place of an earlier one. When
/// no item is left the remembered failure is the result, or false if there is
/// none. A floating-point request is no failure of an item: the scan stops
/// with it.
#[verifier::opaque]
pub open spec fn scan(
    items: Seq<ExpressionView>,
    i: int,
    needle: LiteralView,
    deferred: Option<EvalErrorView>,
    unit: FloatUnit,
) -> Outcome
    decreases items, items.len() - i,
{
    if i < 0 || i >= items.len() {
        match deferred {
            Some(error) => Err(error),
            None => Ok(LiteralView::Bool(false)),
        }
    } else {
        match eval_core(items[i], unit) {
            Ok(value) => if values_equal(value, needle) {
                Ok(LiteralView::Bool(true))
            } else {
                scan(items, i + 1, needle, deferred, unit)
            },
            Err(EvalErrorView::NeedsFloat(request)) => Err(EvalErrorView::NeedsFloat(request)),
            Err(error) => scan(items, i + 1, needle, Some(error), unit),
        }
    }
}

// ---------------------------------------------------------------------------
// Floating-point literals
// ---------------------------------------------------------------------------

/// The first of two options that holds something.
pub open spec fn or_else<T>(first: Option<T>, second: Option<T>) -> Option<T> {
    match first {
        Some(_) => first,
        None => second,
    }
}

/// The text of the first floating-point literal of a tree that has not been
/// converted, going through the tree in the order in which it is written:
/// operands left before right, a receiver before the arguments, the items of
/// a list in order.
pub open spec fn first_decimal(e: ExpressionView) -> Option<Seq<char>>
    decreases e, 0nat,
{
    match e {
        ExpressionView::Lit(LiteralView::F64(FloatView::Decimal(text))) => Some(text),
        ExpressionView::Lit(LiteralView::List(items)) => first_decimal_among(items, 0),
        ExpressionView::Lit(_) => None,
        ExpressionView::Neg(a) | ExpressionView::Not(a) => first_decimal(*a),
        ExpressionView::Eq(a, b)
        | ExpressionView::Neq(a, b)
        | ExpressionView::Lt(a, b)
        | ExpressionView::Lte(a, b)
        | ExpressionView::Gte(a, b)
        | ExpressionView::Gt(a, b)
        | ExpressionView::Add(a, b)
        | ExpressionView::Sub(a, b)
        | ExpressionView::Mul(a, b)
        | ExpressionView::Div(a, b)
        | ExpressionView::Mod(a, b) => or_else(first_decimal(*a), first_decimal(*b)),
        ExpressionView::Method(receiver, _, args) => or_else(
            first_decimal(*receiver),
            first_decimal_among(args, 0),
        ),
    }
}

/// [`first_decimal`] over the trees of a sequence from place `i` on.
pub open spec fn first_decimal_among(items: Seq<ExpressionView>, i: int) -> Option<Seq<char>>
    decreases items, items.len() - i,
{
    if i < 0 || i >= items.len() {
        None
    } else {
        or_else(first_decimal(items[i]), first_decimal_among(items, i + 1))
    }
}

/// What a tree evaluates to.
///
/// The library on its own (`unit` is `None`) first asks for the conversion of
/// each floating-point literal, in the order of [`first_decimal`], and then
/// evaluates by [`eval_core`]. With a host's function for `unit` the result
/// is what evaluation comes to when every request is answered by it.
pub open spec fn eval(e: ExpressionView, unit: FloatUnit) -> Outcome {
    match unit {
        None => match first_decimal(e) {
            Some(text) => Err(EvalErrorView::NeedsFloat(FloatRequestView::Convert(text))),
            None => eval_core(e, unit),
        },
        Some(answer) => eval_core(converted(e, answer), unit),
    }
}

/// The tree with every floating-point literal converted by `answer`.
pub open spec fn converted(
    e: ExpressionView,
    answer: spec_fn(FloatRequestView) -> u64,
) -> ExpressionView
    decreases e, 0nat,
{
    match e {
        ExpressionView::Lit(LiteralView::F64(FloatView::Decimal(text))) => ExpressionView::Lit(
            LiteralView::F64(FloatView::Bits(answer(FloatRequestView::Convert(text)))),
        ),
        ExpressionView::Lit(LiteralView::List(items)) => ExpressionView::Lit(
            LiteralView::List(converted_all(items, answer)),
        ),
        ExpressionView::Lit(_) => e,
        ExpressionView::Neg(a) => ExpressionView::Neg(Box::new(converted(*a, answer))),
        ExpressionView::Not(a) => ExpressionView::Not(Box::new(converted(*a, answer))),
        ExpressionView::Eq(a, b) => ExpressionView::Eq(
            Box::new(converted(*a, answer)),
            Box::new(converted(*b, answer)),
        ),
        ExpressionView::Neq(a, b) => ExpressionView::Neq(
            Box::new(converted(*a, answer)),
            Box::new(converted(*b, answer)),
        ),
        ExpressionView::Lt(a, b) => ExpressionView::Lt(
            Box::new(converted(*a, answer)),
            Box::new(converted(*b, answer)),
        ),
        ExpressionView::Lte(a, b) => ExpressionView::Lte(
            Box::new(converted(*a, answer)),
            Box::new(converted(*b, answer)),
        ),
        ExpressionView::Gte(a, b) => ExpressionView::Gte(
            Box::new(converted(*a, answer)),
            Box::new(converted(*b, answer)),
        ),
        ExpressionView::Gt(a, b) => ExpressionView::Gt(
            Box::new(converted(*a, answer)),
            Box::new(converted(*b, answer)),
        ),
        ExpressionView::Add(a, b) => ExpressionView::Add(
            Box::new(converted(*a, answer)),
            Box::new(converted(*b, answer)),
        ),
        ExpressionView::Sub(a, b) => ExpressionView::Sub(
            Box::new(converted(*a, answer)),
            Box::new(converted(*b, answer)),
        ),
        ExpressionView::Mul(a, b) => ExpressionView::Mul(
            Box::new(converted(*a, answer)),
            Box::new(converted(*b, answer)),
        ),
        ExpressionView::Div(a, b) => ExpressionView::Div(
            Box::new(converted(*a, answer)),
            Box::new(converted(*b, answer)),
        ),
        ExpressionView::Mod(a, b) => ExpressionView::Mod(
            Box::new(converted(*a, answer)),
            Box::new(converted(*b, answer)),
        ),
        ExpressionView::Method(receiver, name, args) => ExpressionView::Method(
            Box::new(converted(*receiver, answer)),
            name,
            converted_all(args, answer),
        ),
    }
}

/// [`converted`], tree by tree.
pub open spec fn converted_all(
    items: Seq<ExpressionView>,
    answer: spec_fn(FloatRequestView) -> u64,
) -> Seq<ExpressionView>
    decreases items, 1nat,
{
    Seq::new(
        items.len(),
        |i: int|
            if 0 <= i < items.len() {
                converted(items[i], answer)
            } else {
                arbitrary()
            },
    )
}

// ---------------------------------------------------------------------------
// Where lists come from
// ---------------------------------------------------------------------------

/// Whether an outcome is a list.
pub open spec fn is_list(outcome: Outcome) -> bool {
    outcome matches Ok(LiteralView::List(_))
}

/// No operator gives a list.
proof fn lemma_operators_give_no_list(op: Operator, left: Outcome, right: Outcome, unit: FloatUnit)
    ensures
        !is_list(combined(op, left, right, unit)),
        !is_list(inverted_outcome(combined(op, left, right, unit))),
        !is_list(negated_outcome(left)),
        !is_list(inverted_outcome(left)),
{
}

/// A scan gives true, false or a failure.
proof fn lemma_scan_gives_no_list(
    items: Seq<ExpressionView>,
    i: int,
    needle: LiteralView,
    deferred: Option<EvalErrorView>,
    unit: FloatUnit,
)
    ensures
        !is_list(scan(items, i, needle, deferred, unit)),
    decreases items.len() - i,
{
    reveal(eval_core);
    reveal(scan);
    if 0 <= i < items.len() {
        match eval_core(items[i], unit) {
            Ok(value) => {
                lemma_scan_gives_no_list(items, i + 1, needle, deferred, unit);
            },
            Err(error) => {
                lemma_scan_gives_no_list(items, i + 1, needle, Some(error), unit);
            },
        }
    }
}

/// Only a list literal evaluates to a list, and then to its own items.
pub proof fn lemma_list_is_literal(e: ExpressionView, unit: FloatUnit)
    ensures
        eval_core(e, unit) matches Ok(LiteralView::List(items)) ==> e == ExpressionView::Lit(
            LiteralView::List(items),
        ),
    decreases e,
{
    reveal(eval_core);
    reveal(scan);
    match e {
        ExpressionView::Lit(_) => {},
        ExpressionView::Neg(a) | ExpressionView::Not(a) => {
            lemma_operators_give_no_list(
                Operator::Equal,
                eval_core(*a, unit),
                eval_core(*a, unit),
                unit,
            );
        },
        ExpressionView::Eq(a, b) | ExpressionView::Neq(a, b) => {
            lemma_operators_give_no_list(
                Operator::Equal,
                eval_core(*a, unit),
                eval_core(*b, unit),
                unit,
            );
        },
        ExpressionView::Lt(a, b) | ExpressionView::Gte(a, b) => {
            lemma_operators_give_no_list(
                Operator::Less,
                eval_core(*a, unit),
                eval_core(*b, unit),
                unit,
            );
        },
        ExpressionView::Lte(a, b) | ExpressionView::Gt(a, b) => {
            lemma_operators_give_no_list(
                Operator::AtMost,
                eval_core(*a, unit),
                eval_core(*b, unit),
                unit,
            );
        },
        ExpressionView::Add(a, b) => {
            lemma_operators_give_no_list(
                Operator::Add,
                eval_core(*a, unit),
                eval_core(*b, unit),
                unit,
            );
        },
        ExpressionView::Sub(a, b) => {
            lemma_operators_give_no_list(
                Operator::Sub,
                eval_core(*a, unit),
                eval_core(*b, unit),
                unit,
            );
        },
        ExpressionView::Mul(a, b) => {
            lemma_operators_give_no_list(
                Operator::Mul,
                eval_core(*a, unit),
                eval_core(*b, unit),
                unit,
            );
        },
        ExpressionView::Div(a, b) => {
            lemma_operators_give_no_list(
                Operator::Div,
                eval_core(*a, unit),
                eval_core(*b, unit),
                unit,
            );
        },
        ExpressionView::Mod(a, b) => {
            lemma_operators_give_no_list(
                Operator::Mod,
                eval_core(*a, unit),
                eval_core(*b, unit),
                unit,
            );
        },
        ExpressionView::Method(receiver, name, args) => {
            lemma_list_is_literal(*receiver, unit);
            if args.len() == 1 {
                match (*receiver, eval_core(args[0], unit)) {
                    (ExpressionView::Lit(LiteralView::List(items)), Ok(needle)) => {
                        lemma_scan_gives_no_list(items, 0, needle, None, unit);
                    },
                    _ => {},
                }
            }
        },
    }
}

} // verus!
