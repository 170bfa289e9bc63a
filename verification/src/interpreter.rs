//! The evaluation of trees.
use crate::errors::{outcome_of, EvalError, EvalErrorView, EvalResult, FloatOp, FloatRequest};
use crate::model::{views, Expression, ExpressionView, Float, Literal, LiteralView, MethodName};
use crate::semantics::{
    eval, eval_core, exponent_of, first_decimal, first_decimal_among, int_outcome,
    lemma_list_is_literal, length_outcome, method_outcome, scan, Operator,
};
use crate::values::{
    apply, checked, int_pow, invert, invert_result, length_value, literals_equal, negate,
};
use vstd::arithmetic::power::pow;
use vstd::prelude::*;
use vstd::string::StrSliceExecFns;

verus! {

/// The mathematical value of a remembered failure.
pub open spec fn deferred_view(deferred: Option<EvalError>) -> Option<EvalErrorView> {
    match deferred {
        Some(error) => Some(error@),
        None => None,
    }
}

/// The integer power of `a` with the argument `b` of `pow`.
fn power(a: i64, b: i64) -> (r: EvalResult)
    ensures
        outcome_of(r) == int_outcome(pow(a as int, exponent_of(b))),
{
    match b.checked_rem_euclid(0x1_0000_0000) {
        Some(n) => checked(int_pow(a, n as u64)),
        None => Err(EvalError::Overflow),
    }
}

/// The length of a string or of a byte string, as the method `name` called
/// with `count` arguments gives it.
fn length_call(name: MethodName, count: usize, length: usize) -> (r: EvalResult)
    ensures
        outcome_of(r) == length_outcome(name, count as nat, length as nat),
{
    match name {
        MethodName::Len => if count == 0 {
            length_value(length)
        } else {
            Err(EvalError::WrongArgumentCount(MethodName::Len))
        },
        _ => Err(EvalError::IllegalType(name)),
    }
}

/// Evaluates a tree whose floating-point literals are converted.
pub fn evaluate_converted(e: &Expression) -> (r: EvalResult)
    ensures
        outcome_of(r) == eval_core(e@, None),
    decreases e, 3nat,
{
    proof {
        reveal(eval_core);
        reveal(scan);
    }
    match e {
        Expression::Lit(value) => Ok(value.clone()),
        Expression::Neg(a) => {
            let x = evaluate_converted(a)?;
            negate(x)
        },
        Expression::Not(a) => {
            let x = evaluate_converted(a)?;
            invert(x)
        },
        Expression::Eq(a, b) => {
            let x = evaluate_converted(a)?;
            let y = evaluate_converted(b)?;
            apply(Operator::Equal, x, y)
        },
        Expression::Neq(a, b) => {
            let x = evaluate_converted(a)?;
            let y = evaluate_converted(b)?;
            invert_result(apply(Operator::Equal, x, y))
        },
        Expression::Lt(a, b) => {
            let x = evaluate_converted(a)?;
            let y = evaluate_converted(b)?;
            apply(Operator::Less, x, y)
        },
        Expression::Lte(a, b) => {
            let x = evaluate_converted(a)?;
            let y = evaluate_converted(b)?;
            apply(Operator::AtMost, x, y)
        },
        Expression::Gte(a, b) => {
            let x = evaluate_converted(a)?;
            let y = evaluate_converted(b)?;
            invert_result(apply(Operator::Less, x, y))
        },
        Expression::Gt(a, b) => {
            let x = evaluate_converted(a)?;
            let y = evaluate_converted(b)?;
            invert_result(apply(Operator::AtMost, x, y))
        },
        Expression::Add(a, b) => {
            let x = evaluate_converted(a)?;
            let y = evaluate_converted(b)?;
            apply(Operator::Add, x, y)
        },
        Expression::Sub(a, b) => {
            let x = evaluate_converted(a)?;
            let y = evaluate_converted(b)?;
            apply(Operator::Sub, x, y)
        },
        Expression::Mul(a, b) => {
            let x = evaluate_converted(a)?;
            let y = evaluate_converted(b)?;
            apply(Operator::Mul, x, y)
        },
        Expression::Div(a, b) => {
            let x = evaluate_converted(a)?;
            let y = evaluate_converted(b)?;
            apply(Operator::Div, x, y)
        },
        Expression::Mod(a, b) => {
            let x = evaluate_converted(a)?;
            let y = evaluate_converted(b)?;
            apply(Operator::Mod, x, y)
        },
        Expression::Method(_, _, _) => call_method(e),
    }
}

/// The items of an expression that is a list literal.
fn literal_items(e: &Expression) -> (r: Option<&Vec<Expression>>)
    ensures
        match r {
            Some(items) => *e == Expression::Lit(Literal::List(*items)) && e@
                == ExpressionView::Lit(LiteralView::List(views(items@))),
            None => !(e@ matches ExpressionView::Lit(LiteralView::List(_))),
        },
{
    match e {
        Expression::Lit(literal) => {
            assert(e@ == ExpressionView::Lit(literal@));
            match literal {
                Literal::List(items) => Some(items),
                _ => None,
            }
        },
        _ => None,
    }
}

/// Evaluates a method call.
fn call_method(e: &Expression) -> (r: EvalResult)
    requires
        e is Method,
    ensures
        outcome_of(r) == eval_core(e@, None),
    decreases e, 2nat,
{
    proof {
        reveal(eval_core);
        reveal(scan);
    }
    match e {
        Expression::Method(receiver, name, args) => {
            match literal_items(receiver) {
                Some(items) => call_on_list(e, items),
                None => {
                    let value = evaluate_converted(receiver)?;
                    proof {
                        lemma_list_is_literal(receiver@, None);
                    }
                    call_on_value(e, value)
                },
            }
        },
        _ => Err(EvalError::InvalidTypes),
    }
}

/// Evaluates the method call `e` on the list literal that is its receiver.
fn call_on_list(e: &Expression, items: &Vec<Expression>) -> (r: EvalResult)
    requires
        e matches Expression::Method(receiver, _, _) && **receiver == Expression::Lit(
            Literal::List(*items),
        ),
        e@ matches ExpressionView::Method(receiver, _, _) && *receiver == ExpressionView::Lit(
            LiteralView::List(views(items@)),
        ),
    ensures
        outcome_of(r) == eval_core(e@, None),
    decreases e, 1nat,
{
    proof {
        reveal(eval_core);
        reveal(scan);
    }
    match e {
        Expression::Method(receiver, name, args) => {
            let ghost list = LiteralView::List(views(items@));
            let ghost argument = if args.len() == 1 {
                eval_core(args[0]@, None)
            } else {
                Err(EvalErrorView::WrongArgumentCount(*name))
            };
            let ghost found = match argument {
                Ok(needle) => scan(views(items@), 0, needle, None, None),
                _ => argument,
            };
            assert(eval_core(e@, None) == method_outcome(
                list,
                *name,
                args.len() as nat,
                argument,
                found,
                None,
            )) by {
                assert(eval_core(receiver@, None) == Ok::<LiteralView, EvalErrorView>(list));
                if args.len() == 1 {
                    assert(views(args@)[0] == args[0]@);
                }
            }
            match name {
                MethodName::Pow => Err(EvalError::IllegalType(MethodName::Pow)),
                MethodName::Len => length_call(MethodName::Len, args.len(), items.len()),
                MethodName::Contains => if args.len() != 1 {
                    Err(EvalError::WrongArgumentCount(MethodName::Contains))
                } else {
                    match evaluate_converted(&args[0]) {
                        Ok(needle) => search(e, items, needle),
                        Err(error) => Err(error),
                    }
                },
            }
        },
        _ => Err(EvalError::InvalidTypes),
    }
}

/// Evaluates the method call `e` on the value that its receiver came to.
fn call_on_value(e: &Expression, value: Literal) -> (r: EvalResult)
    requires
        e is Method,
        e@ matches ExpressionView::Method(receiver, _, _) && eval_core(*receiver, None) == Ok::<
            LiteralView,
            EvalErrorView,
        >(value@),
        !(value is List),
    ensures
        outcome_of(r) == eval_core(e@, None),
    decreases e, 1nat,
{
    proof {
        reveal(eval_core);
        reveal(scan);
    }
    match e {
        Expression::Method(receiver, name, args) => {
            assert(e@ == ExpressionView::Method(Box::new(receiver@), *name, views(args@)));
            match value {
                Literal::String(s) => length_call(*name, args.len(), s.as_str().unicode_len()),
                Literal::Bytes(b) => length_call(*name, args.len(), b.len()),
                Literal::I64(a) => call_on_int(e, a),
                Literal::F64(a) => call_on_float(e, a),
                Literal::Bool(b) => Err(EvalError::IllegalMethodCall(b, *name)),
                Literal::List(_) => Err(EvalError::InvalidTypes),
            }
        },
        _ => Err(EvalError::InvalidTypes),
    }
}

/// Evaluates the method call `e` on the integer that its receiver came to.
fn call_on_int(e: &Expression, a: i64) -> (r: EvalResult)
    requires
        e is Method,
    ensures
        e@ matches ExpressionView::Method(_, name, args) && outcome_of(r) == method_outcome(
            LiteralView::I64(a),
            name,
            args.len(),
            if args.len() == 1 {
                eval_core(args[0], None)
            } else {
                Err(EvalErrorView::WrongArgumentCount(name))
            },
            Ok(LiteralView::Bool(false)),
            None,
        ),
    decreases e, 0nat,
{
    match e {
        Expression::Method(receiver, name, args) => {
            assert(e@ == ExpressionView::Method(Box::new(receiver@), *name, views(args@)));
            match name {
                MethodName::Pow => if args.len() != 1 {
                    Err(EvalError::WrongArgumentCount(MethodName::Pow))
                } else {
                    match evaluate_converted(&args[0])? {
                        Literal::I64(b) => power(a, b),
                        _ => Err(EvalError::IllegalType(MethodName::Pow)),
                    }
                },
                _ => Err(EvalError::IllegalType(*name)),
            }
        },
        _ => Err(EvalError::InvalidTypes),
    }
}

/// Evaluates the method call `e` on the floating-point number that its
/// receiver came to.
fn call_on_float(e: &Expression, a: Float) -> (r: EvalResult)
    requires
        e is Method,
    ensures
        e@ matches ExpressionView::Method(_, name, args) && outcome_of(r) == method_outcome(
            LiteralView::F64(a@),
            name,
            args.len(),
            if args.len() == 1 {
                eval_core(args[0], None)
            } else {
                Err(EvalErrorView::WrongArgumentCount(name))
            },
            Ok(LiteralView::Bool(false)),
            None,
        ),
    decreases e, 0nat,
{
    match e {
        Expression::Method(receiver, name, args) => {
            assert(e@ == ExpressionView::Method(Box::new(receiver@), *name, views(args@)));
            match name {
                MethodName::Pow => if args.len() != 1 {
                    Err(EvalError::WrongArgumentCount(MethodName::Pow))
                } else {
                    match (a, evaluate_converted(&args[0])?) {
                        (Float::Bits(x), Literal::F64(Float::Bits(y))) => Err(
                            EvalError::NeedsFloat(FloatRequest::Binary(FloatOp::Pow, x, y)),
                        ),
                        (Float::Bits(x), Literal::I64(n)) => Err(
                            EvalError::NeedsFloat(FloatRequest::PowInt(x, n)),
                        ),
                        _ => Err(EvalError::IllegalType(MethodName::Pow)),
                    }
                },
                _ => Err(EvalError::IllegalType(*name)),
            }
        },
        _ => Err(EvalError::InvalidTypes),
    }
}

/// Looks for the needle among the items of the list that the method call `e`
/// has for its receiver.
fn search(e: &Expression, items: &Vec<Expression>, needle: Literal) -> (r: EvalResult)
    requires
        e matches Expression::Method(receiver, _, _) && **receiver == Expression::Lit(
            Literal::List(*items),
        ),
    ensures
        outcome_of(r) == scan(views(items@), 0, needle@, None, None),
    decreases e, 0nat,
{
    proof {
        reveal(eval_core);
        reveal(scan);
    }
    let mut deferred: Option<EvalError> = None;
    let mut i: usize = 0;
    while i < items.len()
        invariant
            i <= items.len(),
            e matches Expression::Method(receiver, _, _) && **receiver == Expression::Lit(
                Literal::List(*items),
            ),
            scan(views(items@), 0, needle@, None, None) == scan(
                views(items@),
                i as int,
                needle@,
                deferred_view(deferred),
                None,
            ),
        decreases items.len() - i,
    {
        proof {
            reveal(eval_core);
            reveal(scan);
            let receiver = *e->Method_0;
            assert(decreases_to!(receiver->Lit_0 => receiver->Lit_0->List_0));
        }
        match evaluate_converted(&items[i]) {
            Ok(value) => {
                if literals_equal(&value, &needle) {
                    return Ok(Literal::Bool(true));
                }
            },
            Err(EvalError::NeedsFloat(request)) => {
                return Err(EvalError::NeedsFloat(request));
            },
            Err(error) => {
                deferred = Some(error);
            },
        }
        i += 1;
    }
    match deferred {
        Some(error) => Err(error),
        None => Ok(Literal::Bool(false)),
    }
}

/// The mathematical value of an optional text.
pub open spec fn text_view(text: Option<&String>) -> Option<Seq<char>> {
    match text {
        Some(t) => Some(t@),
        None => None,
    }
}

/// The text of the first floating-point literal of a tree that has not been
/// converted.
pub fn pending_conversion(e: &Expression) -> (r: Option<&String>)
    ensures
        text_view(r) == first_decimal(e@),
    decreases e,
{
    match e {
        Expression::Lit(literal) => {
            assert(e@ == ExpressionView::Lit(literal@));
            match literal {
                Literal::F64(Float::Decimal(text)) => Some(text),
                Literal::List(items) => pending_among(items),
                _ => None,
            }
        },
        Expression::Neg(a) | Expression::Not(a) => pending_conversion(a),
        Expression::Eq(a, b)
        | Expression::Neq(a, b)
        | Expression::Lt(a, b)
        | Expression::Lte(a, b)
        | Expression::Gte(a, b)
        | Expression::Gt(a, b)
        | Expression::Add(a, b)
        | Expression::Sub(a, b)
        | Expression::Mul(a, b)
        | Expression::Div(a, b)
        | Expression::Mod(a, b) => match pending_conversion(a) {
            Some(text) => Some(text),
            None => pending_conversion(b),
        },
        Expression::Method(receiver, _, args) => match pending_conversion(receiver) {
            Some(text) => Some(text),
            None => pending_among(args),
        },
    }
}

/// [`pending_conversion`] over the trees of a vector, in order.
pub fn pending_among(items: &Vec<Expression>) -> (r: Option<&String>)
    ensures
        text_view(r) == first_decimal_among(views(items@), 0),
    decreases items,
{
    let mut i: usize = 0;
    while i < items.len()
        invariant
            i <= items.len(),
            first_decimal_among(views(items@), 0) == first_decimal_among(views(items@), i as int),
        decreases items.len() - i,
    {
        match pending_conversion(&items[i]) {
            Some(text) => {
                return Some(text);
            },
            None => {},
        }
        i += 1;
    }
    None
}

/// Evaluates an expression tree.
///
/// The result is a value, or the first failure that the rules of the language
/// give, or a request for a floating-point computation: first for the
/// conversion of each literal, then for each operation as the evaluation comes
/// to it. Integer results outside the 64-bit signed range are failures.
///
/// The tree is walked by recursion, as deep as the tree is high. The trees
/// that [`parse`](crate::parsers::parse) returns are at most
/// [`MAX_DEPTH`](crate::grammar::MAX_DEPTH) high.
pub fn evaluate(expr: Expression) -> (r: EvalResult)
    ensures
        outcome_of(r) == eval(expr@, None),
{
    match pending_conversion(&expr) {
        Some(text) => Err(EvalError::NeedsFloat(FloatRequest::Convert(text.clone()))),
        None => evaluate_converted(&expr),
    }
}

} // verus!
