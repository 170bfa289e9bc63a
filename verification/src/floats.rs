//! The host's part in floating-point computations: putting answers in
//! place.
use crate::errors::{EvalError, EvalErrorView, Outcome};
use crate::interpreter::{evaluate_converted, pending_conversion};
use crate::model::{
    binary_kind, binary_node, unary_kind, unary_node, views, Expression, ExpressionView, Float,
    FloatView, Literal, LiteralView, Shape,
};
use crate::semantics::{eval_core, first_decimal};
use vstd::prelude::*;

verus! {

/// Whether an evaluation stopped with a request for a floating-point
/// computation.
pub open spec fn is_pending(outcome: Outcome) -> bool {
    outcome matches Err(EvalErrorView::NeedsFloat(_))
}

/// The leaf that holds a floating-point number.
pub open spec fn float_leaf(bits: u64) -> ExpressionView {
    ExpressionView::Lit(LiteralView::F64(FloatView::Bits(bits)))
}

/// The tree with the first of its floating-point literals that are not
/// converted yet replaced by the number `bits`.
pub open spec fn first_converted(e: ExpressionView, bits: u64) -> ExpressionView
    decreases e, 0nat,
{
    match e {
        ExpressionView::Lit(LiteralView::F64(FloatView::Decimal(_))) => float_leaf(bits),
        ExpressionView::Lit(LiteralView::List(items)) => ExpressionView::Lit(
            LiteralView::List(first_converted_among(items, 0, bits)),
        ),
        ExpressionView::Lit(_) => e,
        ExpressionView::Neg(a) | ExpressionView::Not(a) => unary_node(
            unary_kind(e),
            first_converted(*a, bits),
        ),
        ExpressionView::Eq(a, b)
        | ExpressionView::Neq(a, b)
        | ExpressionView::Lt(a, b)
        | ExpressionView::Lte(a, b)
        | ExpressionView::Gte(a, b)
        | ExpressionView::Gt(a, b)
        | ExpressionView::Add(a, b)
        | ExpressionView::Sub(a, b)
        | ExpressionView::Mul(a, b)
        | ExpressionView::Div(a, b)
        | ExpressionView::Mod(a, b) => if first_decimal(*a) is Some {
            binary_node(binary_kind(e), first_converted(*a, bits), *b)
        } else {
            binary_node(binary_kind(e), *a, first_converted(*b, bits))
        },
        ExpressionView::Method(receiver, name, args) => if first_decimal(*receiver) is Some {
            ExpressionView::Method(Box::new(first_converted(*receiver, bits)), name, args)
        } else {
            ExpressionView::Method(receiver, name, first_converted_among(args, 0, bits))
        },
    }
}

/// [`first_converted`] over the trees of a sequence from place `i` on.
pub open spec fn first_converted_among(
    items: Seq<ExpressionView>,
    i: int,
    bits: u64,
) -> Seq<ExpressionView>
    decreases items, items.len() - i,
{
    if i < 0 || i >= items.len() {
        items
    } else if first_decimal(items[i]) is Some {
        items.update(i, first_converted(items[i], bits))
    } else {
        first_converted_among(items, i + 1, bits)
    }
}

/// The tree, of which the evaluation stopped with a request, with the node
/// that made the request replaced by the number `bits`.
///
/// The node is found as the evaluation finds it: it is in the first subtree,
/// in the order of evaluation, whose own evaluation stops with a request,
/// and it is the node itself where there is no such subtree. A tree of which
/// the evaluation does not stop with a request is left as it is.
pub open spec fn settled(e: ExpressionView, bits: u64) -> ExpressionView
    decreases e, 0nat,
{
    if !is_pending(eval_core(e, None)) {
        e
    } else {
        match e {
            ExpressionView::Lit(_) => e,
            ExpressionView::Neg(a) | ExpressionView::Not(a) => unary_node(
                unary_kind(e),
                settled(*a, bits),
            ),
            ExpressionView::Eq(a, b)
            | ExpressionView::Neq(a, b)
            | ExpressionView::Lt(a, b)
            | ExpressionView::Lte(a, b)
            | ExpressionView::Gte(a, b)
            | ExpressionView::Gt(a, b)
            | ExpressionView::Add(a, b)
            | ExpressionView::Sub(a, b)
            | ExpressionView::Mul(a, b)
            | ExpressionView::Div(a, b)
            | ExpressionView::Mod(a, b) => if is_pending(eval_core(*a, None)) {
                binary_node(binary_kind(e), settled(*a, bits), *b)
            } else if is_pending(eval_core(*b, None)) {
                binary_node(binary_kind(e), *a, settled(*b, bits))
            } else {
                float_leaf(bits)
            },
            ExpressionView::Method(receiver, name, args) => if is_pending(
                eval_core(*receiver, None),
            ) {
                ExpressionView::Method(Box::new(settled(*receiver, bits)), name, args)
            } else if args.len() == 1 && is_pending(eval_core(args[0], None)) {
                ExpressionView::Method(receiver, name, seq![settled(args[0], bits)])
            } else {
                match *receiver {
                    ExpressionView::Lit(LiteralView::List(items)) => ExpressionView::Method(
                        Box::new(
                            ExpressionView::Lit(LiteralView::List(settled_among(items, 0, bits))),
                        ),
                        name,
                        args,
                    ),
                    _ => float_leaf(bits),
                }
            },
        }
    }
}

/// The items with the first of them, from place `i` on, whose evaluation
/// stops with a request settled.
pub open spec fn settled_among(items: Seq<ExpressionView>, i: int, bits: u64) -> Seq<
    ExpressionView,
>
    decreases items, items.len() - i,
{
    if i < 0 || i >= items.len() {
        items
    } else if is_pending(eval_core(items[i], None)) {
        items.update(i, settled(items[i], bits))
    } else {
        settled_among(items, i + 1, bits)
    }
}

/// The tree with the answer to the request that its evaluation stopped with
/// put in place: a literal converted while one is left to convert, and else
/// the operation that asked.
pub open spec fn resolved(e: ExpressionView, bits: u64) -> ExpressionView {
    if first_decimal(e) is Some {
        first_converted(e, bits)
    } else {
        settled(e, bits)
    }
}

/// Puts a tree in the place `i` of a vector of trees.
fn replace_item(items: Vec<Expression>, i: usize, tree: Expression) -> (r: Vec<Expression>)
    requires
        i < items.len(),
    ensures
        views(r@) == views(items@).update(i as int, tree@),
{
    let mut r = items;
    r.remove(i);
    r.insert(i, tree);
    r
}

/// Takes the tree in the place `i` out of a vector of trees and leaves the
/// others as they are.
fn take_item(items: Vec<Expression>, i: usize) -> (r: (Expression, Vec<Expression>))
    requires
        i < items.len(),
    ensures
        r.0@ == views(items@)[i as int],
        r.1.len() == items.len(),
        forall|j: int| 0 <= j < items.len() && j != i ==> views(r.1@)[j] == views(items@)[j],
{
    let mut rest = items;
    let tree = rest.remove(i);
    rest.insert(i, Expression::Lit(Literal::Bool(false)));
    (tree, rest)
}

/// The leaf that holds a floating-point number.
fn number_leaf(bits: u64) -> (r: Expression)
    ensures
        r@ == float_leaf(bits),
{
    let number = Literal::F64(Float::Bits(bits));
    assert(number@ == LiteralView::F64(FloatView::Bits(bits)));
    Expression::Lit(number)
}

/// Converts the first floating-point literal of a tree that is not converted
/// yet.
pub fn convert_first(expr: Expression, bits: u64) -> (r: Expression)
    ensures
        r@ == first_converted(expr@, bits),
    decreases expr@,
{
    match expr.into_shape() {
        Shape::Leaf(value) => match value {
            Literal::F64(Float::Decimal(text)) => {
                number_leaf(bits)
            },
            Literal::List(items) => {
                let converted = convert_first_among(items, bits);
                let list = Literal::List(converted);
                assert(list@ == LiteralView::List(views(converted@)));
                Expression::Lit(list)
            },
            other => {
                let ghost value = other@;
                assert(!(value is List) && !(value matches LiteralView::F64(
                    FloatView::Decimal(_),
                ))) by {
                    match other {
                        Literal::I64(_) => {},
                        Literal::F64(_) => {},
                        Literal::Bool(_) => {},
                        Literal::String(_) => {},
                        Literal::Bytes(_) => {},
                        Literal::List(_) => {},
                    }
                }
                let r = Expression::Lit(other);
                r
            },
        },
        Shape::Unary(kind, a) => Expression::unary(kind, convert_first(*a, bits)),
        Shape::Binary(kind, a, b) => if pending_conversion(&a).is_some() {
            Expression::binary(kind, convert_first(*a, bits), *b)
        } else {
            Expression::binary(kind, *a, convert_first(*b, bits))
        },
        Shape::Call(receiver, name, args) => if pending_conversion(&receiver).is_some() {
            Expression::Method(Box::new(convert_first(*receiver, bits)), name, args)
        } else {
            Expression::Method(receiver, name, convert_first_among(args, bits))
        },
    }
}

/// [`convert_first`] over the trees of a vector.
pub fn convert_first_among(items: Vec<Expression>, bits: u64) -> (r: Vec<Expression>)
    ensures
        views(r@) == first_converted_among(views(items@), 0, bits),
    decreases views(items@),
{
    let mut i: usize = 0;
    while i < items.len()
        invariant
            i <= items.len(),
            first_converted_among(views(items@), 0, bits) == first_converted_among(
                views(items@),
                i as int,
                bits,
            ),
        decreases items.len() - i,
    {
        if pending_conversion(&items[i]).is_some() {
            let taken = take_item(items, i);
            let tree = convert_first(taken.0, bits);
            let r = replace_item(taken.1, i, tree);
            return r;
        }
        i += 1;
    }
    items
}

/// Whether the evaluation of a tree, whose literals are converted, stops
/// with a request for a floating-point computation.
pub fn stops_for_float(e: &Expression) -> (r: bool)
    ensures
        r == is_pending(eval_core(e@, None)),
{
    match evaluate_converted(e) {
        Err(EvalError::NeedsFloat(_)) => true,
        _ => false,
    }
}

/// Replaces the node that made the request of a tree's evaluation.
pub fn settle(expr: Expression, bits: u64) -> (r: Expression)
    ensures
        r@ == settled(expr@, bits),
    decreases expr@,
{
    if !stops_for_float(&expr) {
        return expr;
    }
    match expr.into_shape() {
        Shape::Leaf(value) => {
            let r = Expression::Lit(value);
            r
        },
        Shape::Unary(kind, a) => Expression::unary(kind, settle(*a, bits)),
        Shape::Binary(kind, a, b) => if stops_for_float(&a) {
            Expression::binary(kind, settle(*a, bits), *b)
        } else if stops_for_float(&b) {
            Expression::binary(kind, *a, settle(*b, bits))
        } else {
            number_leaf(bits)
        },
        Shape::Call(receiver, name, args) => if stops_for_float(&receiver) {
            Expression::Method(Box::new(settle(*receiver, bits)), name, args)
        } else if args.len() == 1 && stops_for_float(&args[0]) {
            let mut rest = args;
            let argument = rest.remove(0);
            let mut settled_args: Vec<Expression> = Vec::new();
            let tree = settle(argument, bits);
            settled_args.push(tree);
            assert(views(settled_args@) =~= seq![tree@]);
            Expression::Method(receiver, name, settled_args)
        } else {
            let ghost receiver_view = receiver@;
            match (*receiver).into_shape() {
                Shape::Leaf(Literal::List(items)) => {
                    let found = settle_among(items, bits);
                    let list = Literal::List(found);
                    assert(list@ == LiteralView::List(views(found@)));
                    let literal = Expression::Lit(list);
                    assert(literal@ == ExpressionView::Lit(LiteralView::List(views(found@))));
                    Expression::Method(Box::new(literal), name, args)
                },
                other => {
                    assert(!(receiver_view matches ExpressionView::Lit(LiteralView::List(_)))) by {
                        match other {
                            Shape::Leaf(value) => {
                                match value {
                                    Literal::I64(_) => {},
                                    Literal::F64(_) => {},
                                    Literal::Bool(_) => {},
                                    Literal::String(_) => {},
                                    Literal::Bytes(_) => {},
                                    Literal::List(_) => {},
                                }
                            },
                            _ => {},
                        }
                    }
                    number_leaf(bits)
                },
            }
        },
    }
}

/// [`settle`] for the first tree of a vector whose evaluation stops with a
/// request.
pub fn settle_among(items: Vec<Expression>, bits: u64) -> (r: Vec<Expression>)
    ensures
        views(r@) == settled_among(views(items@), 0, bits),
    decreases views(items@),
{
    let mut i: usize = 0;
    while i < items.len()
        invariant
            i <= items.len(),
            settled_among(views(items@), 0, bits) == settled_among(views(items@), i as int, bits),
        decreases items.len() - i,
    {
        if stops_for_float(&items[i]) {
            let taken = take_item(items, i);
            let tree = settle(taken.0, bits);
            let r = replace_item(taken.1, i, tree);
            return r;
        }
        i += 1;
    }
    items
}

/// Puts the answer to a request in its place.
///
/// When [`evaluate`](crate::interpreter::evaluate) has stopped on a tree with
/// a request and the host has computed `bits`, the tree that comes back holds
/// the number where the literal or the operation stood, and can be evaluated
/// again. A tree that makes no request comes back as it is.
pub fn resolve(expr: Expression, bits: u64) -> (r: Expression)
    ensures
        r@ == resolved(expr@, bits),
{
    if pending_conversion(&expr).is_some() {
        convert_first(expr, bits)
    } else {
        settle(expr, bits)
    }
}

} // verus!
