//! What holds of every evaluation.
use crate::errors::{EvalErrorView, FloatRequestView, FloatUnit, Outcome};
use crate::floats::{
    first_converted, first_converted_among, is_pending, resolved, settled, settled_among,
};
use crate::model::{ExpressionView, FloatView, LiteralView, MethodName};
use crate::semantics::{
    converted, converted_all, eval, eval_core, first_decimal, first_decimal_among,
    lemma_list_is_literal, scan, values_equal,
};
use vstd::prelude::*;

verus! {

// ---------------------------------------------------------------------------
// The derived comparisons
// ---------------------------------------------------------------------------

/// `a != b` evaluates as `!(a == b)`.
pub proof fn law_not_equal_negates_equal(a: ExpressionView, b: ExpressionView, unit: FloatUnit)
    ensures
        eval(ExpressionView::Neq(Box::new(a), Box::new(b)), unit) == eval(
            ExpressionView::Not(Box::new(ExpressionView::Eq(Box::new(a), Box::new(b)))),
            unit,
        ),
{
    reveal_with_fuel(eval_core, 2);
    reveal_with_fuel(scan, 2);
    reveal_with_fuel(first_decimal, 2);
    reveal_with_fuel(converted, 2);
}

/// `a >= b` evaluates as `!(a < b)`.
pub proof fn law_at_least_negates_less(a: ExpressionView, b: ExpressionView, unit: FloatUnit)
    ensures
        eval(ExpressionView::Gte(Box::new(a), Box::new(b)), unit) == eval(
            ExpressionView::Not(Box::new(ExpressionView::Lt(Box::new(a), Box::new(b)))),
            unit,
        ),
{
    reveal_with_fuel(eval_core, 2);
    reveal_with_fuel(scan, 2);
    reveal_with_fuel(first_decimal, 2);
    reveal_with_fuel(converted, 2);
}

/// `a > b` evaluates as `!(a <= b)`.
pub proof fn law_greater_negates_at_most(a: ExpressionView, b: ExpressionView, unit: FloatUnit)
    ensures
        eval(ExpressionView::Gt(Box::new(a), Box::new(b)), unit) == eval(
            ExpressionView::Not(Box::new(ExpressionView::Lte(Box::new(a), Box::new(b)))),
            unit,
        ),
{
    reveal_with_fuel(eval_core, 2);
    reveal_with_fuel(scan, 2);
    reveal_with_fuel(first_decimal, 2);
    reveal_with_fuel(converted, 2);
}

// ---------------------------------------------------------------------------
// `contains`
// ---------------------------------------------------------------------------

/// The call of `contains` on a list literal with one argument.
pub open spec fn contains_call(items: Seq<ExpressionView>, argument: ExpressionView) -> ExpressionView {
    ExpressionView::Method(
        Box::new(ExpressionView::Lit(LiteralView::List(items))),
        MethodName::Contains,
        seq![argument],
    )
}

/// Whether the item evaluates to a value equal to the needle.
pub open spec fn is_match(item: ExpressionView, needle: LiteralView, unit: FloatUnit) -> bool {
    eval_core(item, unit) matches Ok(value) && values_equal(value, needle)
}

/// A failure of the needle is the result, whatever the list holds.
pub proof fn law_contains_fails_with_its_needle(
    items: Seq<ExpressionView>,
    argument: ExpressionView,
    unit: FloatUnit,
)
    requires
        eval_core(argument, unit) is Err,
    ensures
        eval_core(contains_call(items, argument), unit) == eval_core(argument, unit),
{
    reveal_with_fuel(eval_core, 2);
    reveal_with_fuel(scan, 2);
}

/// With a needle, `contains` is the scan of the items from the first on.
pub proof fn lemma_contains_scans(
    items: Seq<ExpressionView>,
    argument: ExpressionView,
    unit: FloatUnit,
)
    requires
        eval_core(argument, unit) is Ok,
    ensures
        eval_core(contains_call(items, argument), unit) == scan(
            items,
            0,
            eval_core(argument, unit)->Ok_0,
            None,
            unit,
        ),
{
    reveal_with_fuel(eval_core, 2);
    reveal_with_fuel(scan, 2);
}

/// An item that equals the needle makes the scan true from every place up to
/// its own, whatever is remembered, unless an item before it stops for a
/// floating-point computation.
proof fn lemma_scan_finds(
    items: Seq<ExpressionView>,
    from: int,
    needle: LiteralView,
    deferred: Option<EvalErrorView>,
    unit: FloatUnit,
    i: int,
)
    requires
        0 <= from <= i < items.len(),
        is_match(items[i], needle, unit),
        forall|j: int| from <= j < i ==> !is_pending(#[trigger] eval_core(items[j], unit)),
    ensures
        scan(items, from, needle, deferred, unit) == Ok::<LiteralView, EvalErrorView>(
            LiteralView::Bool(true),
        ),
    decreases i - from,
{
    reveal(eval_core);
    reveal(scan);
    if from < i {
        assert(!is_pending(eval_core(items[from], unit)));
        match eval_core(items[from], unit) {
            Ok(value) => {
                if !values_equal(value, needle) {
                    lemma_scan_finds(items, from + 1, needle, deferred, unit, i);
                }
            },
            Err(error) => {
                lemma_scan_finds(items, from + 1, needle, Some(error), unit, i);
            },
        }
    }
}

/// A match wins: where an item evaluates to a value equal to the needle and
/// no item before it stops for a floating-point computation, `contains` is
/// true, whatever items before or after it fail.
pub proof fn law_contains_finds(
    items: Seq<ExpressionView>,
    argument: ExpressionView,
    unit: FloatUnit,
    i: int,
)
    requires
        eval_core(argument, unit) matches Ok(needle) && {
            &&& 0 <= i < items.len()
            &&& is_match(items[i], needle, unit)
            &&& forall|j: int| 0 <= j < i ==> !is_pending(#[trigger] eval_core(items[j], unit))
        },
    ensures
        eval_core(contains_call(items, argument), unit) == Ok::<LiteralView, EvalErrorView>(
            LiteralView::Bool(true),
        ),
{
    let needle = eval_core(argument, unit)->Ok_0;
    lemma_contains_scans(items, argument, unit);
    lemma_scan_finds(items, 0, needle, None, unit, i);
}

/// The failure of the last item from place `from` on that fails, if one does.
pub open spec fn last_failure_from(items: Seq<ExpressionView>, from: int, unit: FloatUnit) -> Option<
    EvalErrorView,
>
    decreases items.len() - from,
{
    if from < 0 || from >= items.len() {
        None
    } else {
        match last_failure_from(items, from + 1, unit) {
            Some(error) => Some(error),
            None => match eval_core(items[from], unit) {
                Err(error) => Some(error),
                Ok(_) => None,
            },
        }
    }
}

/// What a scan without a match comes to.
pub open spec fn missed(deferred: Option<EvalErrorView>) -> Outcome {
    match deferred {
        Some(error) => Err(error),
        None => Ok(LiteralView::Bool(false)),
    }
}

/// Where no item equals the needle or stops for a floating-point
/// computation, the scan from place `from` comes to the last failure from
/// there on, else to the failure that was remembered, else to false.
proof fn lemma_scan_misses(
    items: Seq<ExpressionView>,
    from: int,
    needle: LiteralView,
    deferred: Option<EvalErrorView>,
    unit: FloatUnit,
)
    requires
        0 <= from <= items.len(),
        forall|j: int|
            from <= j < items.len() ==> !is_match(#[trigger] items[j], needle, unit) && !is_pending(
                eval_core(items[j], unit),
            ),
    ensures
        scan(items, from, needle, deferred, unit) == missed(
            match last_failure_from(items, from, unit) {
                Some(error) => Some(error),
                None => deferred,
            },
        ),
    decreases items.len() - from,
{
    reveal(eval_core);
    reveal(scan);
    if from < items.len() {
        assert(!is_match(items[from], needle, unit));
        match eval_core(items[from], unit) {
            Ok(value) => {
                lemma_scan_misses(items, from + 1, needle, deferred, unit);
            },
            Err(error) => {
                lemma_scan_misses(items, from + 1, needle, Some(error), unit);
            },
        }
    }
}

/// Failures are deferred: where no item equals the needle and none stops
/// for a floating-point computation, `contains` comes to the failure of the
/// last item that fails, and to false where none fails.
pub proof fn law_contains_misses(
    items: Seq<ExpressionView>,
    argument: ExpressionView,
    unit: FloatUnit,
)
    requires
        eval_core(argument, unit) matches Ok(needle) && forall|j: int|
            0 <= j < items.len() ==> !is_match(#[trigger] items[j], needle, unit) && !is_pending(
                eval_core(items[j], unit),
            ),
    ensures
        eval_core(contains_call(items, argument), unit) == missed(
            last_failure_from(items, 0, unit),
        ),
{
    let needle = eval_core(argument, unit)->Ok_0;
    lemma_contains_scans(items, argument, unit);
    lemma_scan_misses(items, 0, needle, None, unit);
}

// ---------------------------------------------------------------------------
// Requests are answered one by one, and there is an end to them
// ---------------------------------------------------------------------------

/// The size of a tree: one for each node, and one more for each
/// floating-point literal that is not converted yet.
pub open spec fn weight(e: ExpressionView) -> nat
    decreases e, 0nat,
{
    match e {
        ExpressionView::Lit(LiteralView::F64(FloatView::Decimal(_))) => 2,
        ExpressionView::Lit(LiteralView::List(items)) => 1 + weight_from(items, 0),
        ExpressionView::Lit(_) => 1,
        ExpressionView::Neg(a) | ExpressionView::Not(a) => 1 + weight(*a),
        ExpressionView::Eq(a, b)
        | ExpressionView::Neq(a, b)
        | ExpressionView::Lt(a, b)
        | ExpressionView::Lte(a, b)
        | ExpressionView::Gte(a, b)
        | ExpressionView::Gt(a, b)
        | ExpressionView::Add(a, b)
        | ExpressionView::Sub(a, b)
        | ExpressionView::Mul(a, b)
        | ExpressionView::Div(a, b)
        | ExpressionView::Mod(a, b) => 1 + weight(*a) + weight(*b),
        ExpressionView::Method(receiver, _, args) => 1 + weight(*receiver) + weight_from(
            args,
            0,
        ),
    }
}

/// The sizes of the trees of a sequence from place `i` on, added up.
pub open spec fn weight_from(items: Seq<ExpressionView>, i: int) -> nat
    decreases items, items.len() - i,
{
    if i < 0 || i >= items.len() {
        0
    } else {
        weight(items[i]) + weight_from(items, i + 1)
    }
}

/// Every tree has a size of at least one.
proof fn lemma_weight_is_positive(e: ExpressionView)
    ensures
        weight(e) >= 1,
{
}

/// A change in one place of a sequence changes the sum of the sizes by the
/// difference of the two trees' sizes, seen from any place up to that one,
/// and not at all seen from a later place.
proof fn lemma_weight_after_update(
    items: Seq<ExpressionView>,
    k: int,
    tree: ExpressionView,
    from: int,
)
    requires
        0 <= k < items.len(),
        0 <= from,
    ensures
        from <= k ==> weight_from(items.update(k, tree), from) + weight(items[k]) == weight_from(
            items,
            from,
        ) + weight(tree),
        from > k ==> weight_from(items.update(k, tree), from) == weight_from(items, from),
    decreases items.len() - from,
{
    if from < items.len() {
        lemma_weight_after_update(items, k, tree, from + 1);
    }
}

/// Converting a literal makes the tree lighter.
proof fn lemma_converting_lightens(e: ExpressionView, bits: u64)
    requires
        first_decimal(e) is Some,
    ensures
        weight(first_converted(e, bits)) < weight(e),
    decreases e, 0nat,
{
    match e {
        ExpressionView::Lit(LiteralView::List(items)) => {
            lemma_converting_lightens_among(items, 0, bits);
        },
        ExpressionView::Lit(_) => {},
        ExpressionView::Neg(a) | ExpressionView::Not(a) => {
            lemma_converting_lightens(*a, bits);
        },
        ExpressionView::Eq(a, b)
        | ExpressionView::Neq(a, b)
        | ExpressionView::Lt(a, b)
        | ExpressionView::Lte(a, b)
        | ExpressionView::Gte(a, b)
        | ExpressionView::Gt(a, b)
        | ExpressionView::Add(a, b)
        | ExpressionView::Sub(a, b)
        | ExpressionView::Mul(a, b)
        | ExpressionView::Div(a, b)
        | ExpressionView::Mod(a, b) => {
            if first_decimal(*a) is Some {
                lemma_converting_lightens(*a, bits);
            } else {
                lemma_converting_lightens(*b, bits);
            }
        },
        ExpressionView::Method(receiver, _, args) => {
            if first_decimal(*receiver) is Some {
                lemma_converting_lightens(*receiver, bits);
            } else {
                lemma_converting_lightens_among(args, 0, bits);
            }
        },
    }
}

/// [`lemma_converting_lightens`] for the trees of a sequence.
proof fn lemma_converting_lightens_among(items: Seq<ExpressionView>, i: int, bits: u64)
    requires
        0 <= i,
        first_decimal_among(items, i) is Some,
    ensures
        weight_from(first_converted_among(items, i, bits), 0) < weight_from(items, 0),
    decreases items, items.len() - i,
{
    if first_decimal(items[i]) is Some {
        lemma_converting_lightens(items[i], bits);
        lemma_weight_after_update(items, i, first_converted(items[i], bits), 0);
    } else {
        lemma_converting_lightens_among(items, i + 1, bits);
    }
}

/// A scan that stops with a request does so at an item, and settling that
/// item makes the items lighter.
proof fn lemma_settling_lightens_among(
    items: Seq<ExpressionView>,
    i: int,
    needle: LiteralView,
    deferred: Option<EvalErrorView>,
    bits: u64,
)
    requires
        0 <= i,
        is_pending(scan(items, i, needle, deferred, None)),
        !(deferred matches Some(EvalErrorView::NeedsFloat(_))),
    ensures
        weight_from(settled_among(items, i, bits), 0) < weight_from(items, 0),
    decreases items, items.len() - i,
{
    reveal(eval_core);
    reveal(scan);
    if i < items.len() {
        if is_pending(eval_core(items[i], None)) {
            lemma_settling_lightens(items[i], bits);
            lemma_weight_after_update(items, i, settled(items[i], bits), 0);
        } else {
            match eval_core(items[i], None) {
                Ok(_) => {
                    lemma_settling_lightens_among(items, i + 1, needle, deferred, bits);
                },
                Err(error) => {
                    lemma_settling_lightens_among(items, i + 1, needle, Some(error), bits);
                },
            }
        }
    }
}

/// Settling a request makes the tree lighter.
proof fn lemma_settling_lightens(e: ExpressionView, bits: u64)
    requires
        is_pending(eval_core(e, None)),
    ensures
        weight(settled(e, bits)) < weight(e),
    decreases e, 0nat,
{
    match e {
        ExpressionView::Lit(_) => {
            assert(!is_pending(eval_core(e, None))) by {
                reveal(eval_core);
                reveal(scan);
            }
        },
        ExpressionView::Neg(a) | ExpressionView::Not(a) => {
            assert(is_pending(eval_core(*a, None))) by {
                reveal(eval_core);
                reveal(scan);
            }
            lemma_settling_lightens(*a, bits);
        },
        ExpressionView::Eq(a, b)
        | ExpressionView::Neq(a, b)
        | ExpressionView::Lt(a, b)
        | ExpressionView::Lte(a, b)
        | ExpressionView::Gte(a, b)
        | ExpressionView::Gt(a, b)
        | ExpressionView::Add(a, b)
        | ExpressionView::Sub(a, b)
        | ExpressionView::Mul(a, b)
        | ExpressionView::Div(a, b)
        | ExpressionView::Mod(a, b) => {
            lemma_weight_is_positive(*a);
            lemma_weight_is_positive(*b);
            if is_pending(eval_core(*a, None)) {
                lemma_settling_lightens(*a, bits);
            } else if is_pending(eval_core(*b, None)) {
                lemma_settling_lightens(*b, bits);
            }
        },
        ExpressionView::Method(receiver, name, args) => {
            lemma_weight_is_positive(*receiver);
            if is_pending(eval_core(*receiver, None)) {
                lemma_settling_lightens(*receiver, bits);
            } else if args.len() == 1 && is_pending(eval_core(args[0], None)) {
                lemma_settling_lightens(args[0], bits);
                let after = seq![settled(args[0], bits)];
                assert(weight_from(after, 1) == 0);
                assert(weight_from(after, 0) == weight(after[0]) + weight_from(after, 1));
                assert(weight_from(args, 1) == 0);
                assert(weight_from(args, 0) == weight(args[0]) + weight_from(args, 1));
            } else {
                match *receiver {
                    ExpressionView::Lit(LiteralView::List(items)) => {
                        assert(args.len() == 1 && eval_core(args[0], None) is Ok && is_pending(
                            scan(items, 0, eval_core(args[0], None)->Ok_0, None, None),
                        )) by {
                            reveal(eval_core);
                            reveal(scan);
                        }
                        let needle = eval_core(args[0], None)->Ok_0;
                        lemma_settling_lightens_among(items, 0, needle, None, bits);
                        let after = settled_among(items, 0, bits);
                        assert(weight(ExpressionView::Lit(LiteralView::List(after))) == 1
                            + weight_from(after, 0));
                        assert(weight(ExpressionView::Lit(LiteralView::List(items))) == 1
                            + weight_from(items, 0));
                    },
                    _ => {},
                }
            }
        },
    }
}

/// Each answer brings the evaluation nearer to its end: the tree with the
/// answer in place is lighter than the tree that asked, so that a host that
/// answers every request comes to a value or a failure after at most as many
/// answers as the tree weighs.
pub proof fn law_resolving_lightens(e: ExpressionView, bits: u64)
    requires
        is_pending(eval(e, None)),
    ensures
        weight(resolved(e, bits)) < weight(e),
{
    if first_decimal(e) is Some {
        lemma_converting_lightens(e, bits);
    } else {
        lemma_settling_lightens(e, bits);
    }
}

/// A tree that makes no request is left as it is.
pub proof fn law_resolving_without_request(e: ExpressionView, bits: u64)
    requires
        !is_pending(eval(e, None)),
    ensures
        resolved(e, bits) == e,
{
}

// ---------------------------------------------------------------------------
// Answering the requests gives the value
// ---------------------------------------------------------------------------

/// A tree without literals to convert is its own conversion.
proof fn lemma_converted_without_decimals(
    e: ExpressionView,
    answer: spec_fn(FloatRequestView) -> u64,
)
    requires
        first_decimal(e) is None,
    ensures
        converted(e, answer) == e,
    decreases e, 0nat,
{
    match e {
        ExpressionView::Lit(LiteralView::List(items)) => {
            lemma_converted_all_without_decimals(items, 0, answer);
            assert(converted_all(items, answer) =~= items);
        },
        ExpressionView::Lit(_) => {},
        ExpressionView::Neg(a) | ExpressionView::Not(a) => {
            lemma_converted_without_decimals(*a, answer);
        },
        ExpressionView::Eq(a, b)
        | ExpressionView::Neq(a, b)
        | ExpressionView::Lt(a, b)
        | ExpressionView::Lte(a, b)
        | ExpressionView::Gte(a, b)
        | ExpressionView::Gt(a, b)
        | ExpressionView::Add(a, b)
        | ExpressionView::Sub(a, b)
        | ExpressionView::Mul(a, b)
        | ExpressionView::Div(a, b)
        | ExpressionView::Mod(a, b) => {
            lemma_converted_without_decimals(*a, answer);
            lemma_converted_without_decimals(*b, answer);
        },
        ExpressionView::Method(receiver, _, args) => {
            lemma_converted_without_decimals(*receiver, answer);
            lemma_converted_all_without_decimals(args, 0, answer);
            assert(converted_all(args, answer) =~= args);
        },
    }
}

/// [`lemma_converted_without_decimals`] for the trees of a sequence from
/// place `i` on.
proof fn lemma_converted_all_without_decimals(
    items: Seq<ExpressionView>,
    i: int,
    answer: spec_fn(FloatRequestView) -> u64,
)
    requires
        0 <= i,
        first_decimal_among(items, i) is None,
    ensures
        forall|j: int| i <= j < items.len() ==> converted(#[trigger] items[j], answer) == items[j],
    decreases items, items.len() - i,
{
    if i < items.len() {
        lemma_converted_without_decimals(items[i], answer);
        lemma_converted_all_without_decimals(items, i + 1, answer);
    }
}

/// Converting the first literal by the host's function and then all of them
/// is converting all of them.
proof fn lemma_converted_after_first(e: ExpressionView, answer: spec_fn(FloatRequestView) -> u64)
    requires
        first_decimal(e) is Some,
    ensures
        converted(
            first_converted(e, answer(FloatRequestView::Convert(first_decimal(e)->Some_0))),
            answer,
        ) == converted(e, answer),
    decreases e, 0nat,
{
    match e {
        ExpressionView::Lit(LiteralView::List(items)) => {
            lemma_converted_all_after_first(items, 0, answer);
        },
        ExpressionView::Lit(_) => {},
        ExpressionView::Neg(a) | ExpressionView::Not(a) => {
            lemma_converted_after_first(*a, answer);
        },
        ExpressionView::Eq(a, b)
        | ExpressionView::Neq(a, b)
        | ExpressionView::Lt(a, b)
        | ExpressionView::Lte(a, b)
        | ExpressionView::Gte(a, b)
        | ExpressionView::Gt(a, b)
        | ExpressionView::Add(a, b)
        | ExpressionView::Sub(a, b)
        | ExpressionView::Mul(a, b)
        | ExpressionView::Div(a, b)
        | ExpressionView::Mod(a, b) => {
            if first_decimal(*a) is Some {
                lemma_converted_after_first(*a, answer);
            } else {
                lemma_converted_after_first(*b, answer);
            }
        },
        ExpressionView::Method(receiver, _, args) => {
            if first_decimal(*receiver) is Some {
                lemma_converted_after_first(*receiver, answer);
            } else {
                lemma_converted_all_after_first(args, 0, answer);
            }
        },
    }
}

/// [`lemma_converted_after_first`] for the trees of a sequence from place
/// `i` on.
proof fn lemma_converted_all_after_first(
    items: Seq<ExpressionView>,
    i: int,
    answer: spec_fn(FloatRequestView) -> u64,
)
    requires
        0 <= i,
        first_decimal_among(items, i) is Some,
    ensures
        converted_all(
            first_converted_among(
                items,
                i,
                answer(FloatRequestView::Convert(first_decimal_among(items, i)->Some_0)),
            ),
            answer,
        ) == converted_all(items, answer),
    decreases items, items.len() - i,
{
    let bits = answer(FloatRequestView::Convert(first_decimal_among(items, i)->Some_0));
    if first_decimal(items[i]) is Some {
        lemma_converted_after_first(items[i], answer);
        assert(converted_all(items.update(i, first_converted(items[i], bits)), answer)
            =~= converted_all(items, answer));
    } else {
        lemma_converted_all_after_first(items, i + 1, answer);
    }
}

/// An evaluation that makes no request comes to the same with a host and
/// without.
proof fn lemma_evaluation_without_request(
    e: ExpressionView,
    answer: spec_fn(FloatRequestView) -> u64,
)
    requires
        !is_pending(eval_core(e, None)),
    ensures
        eval_core(e, Some(answer)) == eval_core(e, None),
    decreases e, 0nat,
{
    let unit = Some(answer);
    match e {
        ExpressionView::Lit(_) => {
            reveal(eval_core);
            reveal(scan);
        },
        ExpressionView::Neg(a) | ExpressionView::Not(a) => {
            assert(!is_pending(eval_core(*a, None))) by {
                reveal(eval_core);
                reveal(scan);
            }
            lemma_evaluation_without_request(*a, answer);
            assert(eval_core(e, unit) == eval_core(e, None)) by {
                reveal(eval_core);
                reveal(scan);
            }
        },
        ExpressionView::Eq(a, b)
        | ExpressionView::Neq(a, b)
        | ExpressionView::Lt(a, b)
        | ExpressionView::Lte(a, b)
        | ExpressionView::Gte(a, b)
        | ExpressionView::Gt(a, b)
        | ExpressionView::Add(a, b)
        | ExpressionView::Sub(a, b)
        | ExpressionView::Mul(a, b)
        | ExpressionView::Div(a, b)
        | ExpressionView::Mod(a, b) => {
            assert(!is_pending(eval_core(*a, None)) && (eval_core(*a, None) is Ok ==> !is_pending(
                eval_core(*b, None),
            ))) by {
                reveal(eval_core);
                reveal(scan);
            }
            lemma_evaluation_without_request(*a, answer);
            if eval_core(*a, None) is Ok {
                lemma_evaluation_without_request(*b, answer);
            }
            assert(eval_core(e, unit) == eval_core(e, None)) by {
                reveal(eval_core);
                reveal(scan);
            }
        },
        ExpressionView::Method(receiver, name, args) => {
            assert(!is_pending(eval_core(*receiver, None))) by {
                reveal(eval_core);
                reveal(scan);
            }
            lemma_evaluation_without_request(*receiver, answer);
            lemma_list_is_literal(*receiver, None);
            match eval_core(*receiver, None) {
                Err(_) => {
                    assert(eval_core(e, unit) == eval_core(e, None)) by {
                        reveal(eval_core);
                        reveal(scan);
                    }
                },
                Ok(value) => {
                    let argument = if args.len() == 1 {
                        eval_core(args[0], None)
                    } else {
                        Err(EvalErrorView::WrongArgumentCount(name))
                    };
                    let uses_argument = name == MethodName::Pow && (value is I64 || value is F64)
                        || name == MethodName::Contains && value is List;
                    if uses_argument {
                        if args.len() == 1 {
                            assert(!is_pending(eval_core(args[0], None))) by {
                                reveal(eval_core);
                                reveal(scan);
                            }
                            lemma_evaluation_without_request(args[0], answer);
                        }
                        match (*receiver, argument) {
                            (ExpressionView::Lit(LiteralView::List(items)), Ok(needle)) => {
                                assert(name == MethodName::Contains ==> !is_pending(
                                    scan(items, 0, needle, None, None),
                                )) by {
                                    reveal(eval_core);
                                    reveal(scan);
                                }
                                if name == MethodName::Contains {
                                    lemma_scan_without_request(items, 0, needle, None, answer);
                                }
                            },
                            _ => {},
                        }
                    }
                    assert(eval_core(e, unit) == eval_core(e, None)) by {
                        reveal(eval_core);
                        reveal(scan);
                    }
                },
            }
        },
    }
}

/// A scan that makes no request comes to the same with a host and without.
proof fn lemma_scan_without_request(
    items: Seq<ExpressionView>,
    i: int,
    needle: LiteralView,
    deferred: Option<EvalErrorView>,
    answer: spec_fn(FloatRequestView) -> u64,
)
    requires
        0 <= i,
        !is_pending(scan(items, i, needle, deferred, None)),
    ensures
        scan(items, i, needle, deferred, Some(answer)) == scan(items, i, needle, deferred, None),
    decreases items, items.len() - i,
{
    reveal(eval_core);
    reveal(scan);
    if i < items.len() {
        assert(!is_pending(eval_core(items[i], None)));
        lemma_evaluation_without_request(items[i], answer);
        match eval_core(items[i], None) {
            Ok(value) => {
                if !values_equal(value, needle) {
                    lemma_scan_without_request(items, i + 1, needle, deferred, answer);
                }
            },
            Err(error) => {
                lemma_scan_without_request(items, i + 1, needle, Some(error), answer);
            },
        }
    }
}

/// A scan from a later place does not see a change in an earlier place.
proof fn lemma_scan_ignores_earlier(
    items: Seq<ExpressionView>,
    k: int,
    tree: ExpressionView,
    i: int,
    needle: LiteralView,
    deferred: Option<EvalErrorView>,
    unit: FloatUnit,
)
    requires
        0 <= k < i,
        k < items.len(),
    ensures
        scan(items.update(k, tree), i, needle, deferred, unit) == scan(
            items,
            i,
            needle,
            deferred,
            unit,
        ),
    decreases items.len() - i,
{
    reveal(eval_core);
    reveal(scan);
    if i < items.len() {
        match eval_core(items[i], unit) {
            Ok(value) => {
                lemma_scan_ignores_earlier(items, k, tree, i + 1, needle, deferred, unit);
            },
            Err(error) => {
                lemma_scan_ignores_earlier(items, k, tree, i + 1, needle, Some(error), unit);
            },
        }
    }
}

/// Settling from a place on leaves the items before that place, and the
/// number of items, as they are.
proof fn lemma_settled_among_keeps_earlier(items: Seq<ExpressionView>, i: int, bits: u64)
    requires
        0 <= i,
    ensures
        settled_among(items, i, bits).len() == items.len(),
        forall|j: int| 0 <= j < i && j < items.len() ==> settled_among(items, i, bits)[j] == items[j],
    decreases items.len() - i,
{
    if i < items.len() && !is_pending(eval_core(items[i], None)) {
        lemma_settled_among_keeps_earlier(items, i + 1, bits);
    }
}

/// The node that settling puts in place of a request is no list.
proof fn lemma_settled_is_no_new_list(e: ExpressionView, bits: u64)
    requires
        is_pending(eval_core(e, None)),
    ensures
        !(settled(e, bits) matches ExpressionView::Lit(LiteralView::List(_))),
{
    reveal(eval_core);
    reveal(scan);
}

/// With the answer to its request in place, a tree evaluates with the host
/// as it does without the answer in place.
proof fn lemma_settling_keeps_value(e: ExpressionView, answer: spec_fn(FloatRequestView) -> u64)
    requires
        is_pending(eval_core(e, None)),
    ensures
        eval_core(settled(e, answer(eval_core(e, None)->Err_0->NeedsFloat_0)), Some(answer))
            == eval_core(e, Some(answer)),
    decreases e, 0nat,
{
    let unit = Some(answer);
    let request = eval_core(e, None)->Err_0->NeedsFloat_0;
    let bits = answer(request);
    match e {
        ExpressionView::Lit(_) => {
            assert(!is_pending(eval_core(e, None))) by {
                reveal(eval_core);
                reveal(scan);
            }
        },
        ExpressionView::Neg(a) | ExpressionView::Not(a) => {
            assert(eval_core(*a, None) == eval_core(e, None)) by {
                reveal(eval_core);
                reveal(scan);
            }
            lemma_settling_keeps_value(*a, answer);
            assert(eval_core(settled(e, bits), unit) == eval_core(e, unit)) by {
                reveal(eval_core);
                reveal(scan);
            }
        },
        ExpressionView::Eq(a, b)
        | ExpressionView::Neq(a, b)
        | ExpressionView::Lt(a, b)
        | ExpressionView::Lte(a, b)
        | ExpressionView::Gte(a, b)
        | ExpressionView::Gt(a, b)
        | ExpressionView::Add(a, b)
        | ExpressionView::Sub(a, b)
        | ExpressionView::Mul(a, b)
        | ExpressionView::Div(a, b)
        | ExpressionView::Mod(a, b) => {
            if is_pending(eval_core(*a, None)) {
                assert(eval_core(*a, None) == eval_core(e, None)) by {
                    reveal(eval_core);
                    reveal(scan);
                }
                lemma_settling_keeps_value(*a, answer);
            } else {
                lemma_evaluation_without_request(*a, answer);
                if is_pending(eval_core(*b, None)) {
                    assert(eval_core(*b, None) == eval_core(e, None)) by {
                        reveal(eval_core);
                        reveal(scan);
                    }
                    lemma_settling_keeps_value(*b, answer);
                } else {
                    lemma_evaluation_without_request(*b, answer);
                }
            }
            assert(eval_core(settled(e, bits), unit) == eval_core(e, unit)) by {
                reveal_with_fuel(eval_core, 2);
                reveal_with_fuel(scan, 2);
            }
        },
        ExpressionView::Method(receiver, name, args) => {
            lemma_list_is_literal(*receiver, None);
            lemma_list_is_literal(*receiver, unit);
            if is_pending(eval_core(*receiver, None)) {
                assert(eval_core(*receiver, None) == eval_core(e, None)) by {
                    reveal(eval_core);
                    reveal(scan);
                }
                lemma_settling_keeps_value(*receiver, answer);
                lemma_settled_is_no_new_list(*receiver, bits);
                lemma_list_is_literal(settled(*receiver, bits), unit);
                assert(eval_core(settled(e, bits), unit) == eval_core(e, unit)) by {
                    reveal(eval_core);
                    reveal(scan);
                }
            } else {
                lemma_evaluation_without_request(*receiver, answer);
                if args.len() == 1 && is_pending(eval_core(args[0], None)) {
                    assert(eval_core(args[0], None) == eval_core(e, None)) by {
                        reveal(eval_core);
                        reveal(scan);
                    }
                    lemma_settling_keeps_value(args[0], answer);
                    assert(eval_core(settled(e, bits), unit) == eval_core(e, unit)) by {
                        reveal(eval_core);
                        reveal(scan);
                    }
                } else {
                    if args.len() == 1 {
                        lemma_evaluation_without_request(args[0], answer);
                    }
                    match *receiver {
                        ExpressionView::Lit(LiteralView::List(items)) => {
                            assert(args.len() == 1 && eval_core(args[0], None) is Ok && scan(
                                items,
                                0,
                                eval_core(args[0], None)->Ok_0,
                                None,
                                None,
                            ) == eval_core(e, None)) by {
                                reveal(eval_core);
                                reveal(scan);
                            }
                            let needle = eval_core(args[0], None)->Ok_0;
                            lemma_scan_settling_keeps_value(items, 0, needle, None, answer);
                            assert(eval_core(settled(e, bits), unit) == eval_core(e, unit)) by {
                                reveal_with_fuel(eval_core, 2);
                                reveal_with_fuel(scan, 2);
                            }
                        },
                        _ => {
                            assert(eval_core(settled(e, bits), unit) == eval_core(e, unit)) by {
                                reveal_with_fuel(eval_core, 2);
                                reveal_with_fuel(scan, 2);
                            }
                        },
                    }
                }
            }
        },
    }
}

/// [`lemma_settling_keeps_value`] for a scan.
proof fn lemma_scan_settling_keeps_value(
    items: Seq<ExpressionView>,
    i: int,
    needle: LiteralView,
    deferred: Option<EvalErrorView>,
    answer: spec_fn(FloatRequestView) -> u64,
)
    requires
        0 <= i,
        is_pending(scan(items, i, needle, deferred, None)),
        !(deferred matches Some(EvalErrorView::NeedsFloat(_))),
    ensures
        scan(
            settled_among(
                items,
                i,
                answer(scan(items, i, needle, deferred, None)->Err_0->NeedsFloat_0),
            ),
            i,
            needle,
            deferred,
            Some(answer),
        ) == scan(items, i, needle, deferred, Some(answer)),
    decreases items, items.len() - i,
{
    let unit = Some(answer);
    let request = scan(items, i, needle, deferred, None)->Err_0->NeedsFloat_0;
    let bits = answer(request);
    reveal(eval_core);
    reveal(scan);
    if i < items.len() {
        if is_pending(eval_core(items[i], None)) {
            lemma_settling_keeps_value(items[i], answer);
            match eval_core(items[i], unit) {
                Ok(value) => {
                    lemma_scan_ignores_earlier(
                        items,
                        i,
                        settled(items[i], bits),
                        i + 1,
                        needle,
                        deferred,
                        unit,
                    );
                },
                Err(error) => {
                    lemma_scan_ignores_earlier(
                        items,
                        i,
                        settled(items[i], bits),
                        i + 1,
                        needle,
                        Some(error),
                        unit,
                    );
                },
            }
        } else {
            lemma_evaluation_without_request(items[i], answer);
            lemma_settled_among_keeps_earlier(items, i + 1, bits);
            match eval_core(items[i], None) {
                Ok(value) => {
                    lemma_scan_settling_keeps_value(items, i + 1, needle, deferred, answer);
                },
                Err(error) => {
                    lemma_scan_settling_keeps_value(items, i + 1, needle, Some(error), answer);
                },
            }
        }
    }
}

/// Settling a request brings no literal that is left to convert.
proof fn lemma_settled_has_no_decimals(e: ExpressionView, bits: u64)
    requires
        first_decimal(e) is None,
    ensures
        first_decimal(settled(e, bits)) is None,
    decreases e, 0nat,
{
    if is_pending(eval_core(e, None)) {
        match e {
            ExpressionView::Lit(_) => {},
            ExpressionView::Neg(a) | ExpressionView::Not(a) => {
                lemma_settled_has_no_decimals(*a, bits);
            },
            ExpressionView::Eq(a, b)
            | ExpressionView::Neq(a, b)
            | ExpressionView::Lt(a, b)
            | ExpressionView::Lte(a, b)
            | ExpressionView::Gte(a, b)
            | ExpressionView::Gt(a, b)
            | ExpressionView::Add(a, b)
            | ExpressionView::Sub(a, b)
            | ExpressionView::Mul(a, b)
            | ExpressionView::Div(a, b)
            | ExpressionView::Mod(a, b) => {
                lemma_settled_has_no_decimals(*a, bits);
                lemma_settled_has_no_decimals(*b, bits);
            },
            ExpressionView::Method(receiver, name, args) => {
                lemma_settled_has_no_decimals(*receiver, bits);
                assert(first_decimal_among(args, 0) is None);
                if args.len() == 1 {
                    assert(first_decimal(args[0]) is None);
                    lemma_settled_has_no_decimals(args[0], bits);
                    let after = seq![settled(args[0], bits)];
                    assert(first_decimal_among(args, 1) is None);
                    assert(first_decimal_among(after, 1) is None);
                    assert(first_decimal_among(after, 0) is None);
                }
                match *receiver {
                    ExpressionView::Lit(LiteralView::List(items)) => {
                        lemma_settled_among_has_no_decimals(items, 0, bits, 0);
                        let after = settled_among(items, 0, bits);
                        assert(first_decimal(ExpressionView::Lit(LiteralView::List(after)))
                            == first_decimal_among(after, 0));
                    },
                    _ => {},
                }
            },
        }
    }
}

/// [`lemma_settled_has_no_decimals`] for the items from place `i` on, seen
/// from place `from`.
proof fn lemma_settled_among_has_no_decimals(
    items: Seq<ExpressionView>,
    i: int,
    bits: u64,
    from: int,
)
    requires
        0 <= from <= i,
        first_decimal_among(items, from) is None,
    ensures
        first_decimal_among(settled_among(items, i, bits), from) is None,
    decreases items, items.len() - from,
{
    lemma_settled_among_keeps_earlier(items, i, bits);
    if from < items.len() {
        if from < i {
            lemma_settled_among_has_no_decimals(items, i, bits, from + 1);
        } else {
            // from == i
            if is_pending(eval_core(items[i], None)) {
                lemma_settled_has_no_decimals(items[i], bits);
                lemma_decimals_after_update(items, i, settled(items[i], bits), i + 1);
            } else {
                lemma_settled_among_has_no_decimals(items, i + 1, bits, i + 1);
                lemma_settled_among_keeps_earlier(items, i + 1, bits);
            }
        }
    }
}

/// The search for a literal from a later place does not see a change in an
/// earlier place.
proof fn lemma_decimals_after_update(
    items: Seq<ExpressionView>,
    k: int,
    tree: ExpressionView,
    from: int,
)
    requires
        0 <= k < from,
        k < items.len(),
    ensures
        first_decimal_among(items.update(k, tree), from) == first_decimal_among(items, from),
    decreases items.len() - from,
{
    if from < items.len() {
        lemma_decimals_after_update(items, k, tree, from + 1);
    }
}

/// Answering a request keeps the value: where the evaluation of a tree stops
/// with a request, the tree with the host's answer in place evaluates, the
/// host answering, to what the first tree evaluates to. By
/// [`law_resolving_lightens`] the host comes to that value, or to a failure
/// of the language, by answering one request after another.
pub proof fn law_resolving_keeps_the_value(
    e: ExpressionView,
    answer: spec_fn(FloatRequestView) -> u64,
)
    requires
        is_pending(eval(e, None)),
    ensures
        eval(resolved(e, answer(eval(e, None)->Err_0->NeedsFloat_0)), Some(answer)) == eval(
            e,
            Some(answer),
        ),
{
    let bits = answer(eval(e, None)->Err_0->NeedsFloat_0);
    if first_decimal(e) is Some {
        lemma_converted_after_first(e, answer);
    } else {
        lemma_converted_without_decimals(e, answer);
        lemma_settled_has_no_decimals(e, bits);
        lemma_converted_without_decimals(settled(e, bits), answer);
        lemma_settling_keeps_value(e, answer);
    }
}

/// An evaluation that makes no request needs no host: it comes to the same
/// value or failure whatever the host would answer.
pub proof fn law_value_without_request(e: ExpressionView, answer: spec_fn(FloatRequestView) -> u64)
    requires
        !is_pending(eval(e, None)),
    ensures
        eval(e, Some(answer)) == eval(e, None),
{
    lemma_converted_without_decimals(e, answer);
    lemma_evaluation_without_request(e, answer);
}

} // verus!
