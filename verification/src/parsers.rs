//! The readers of the rules of the grammar.
use crate::grammar::{
    addition, additive_node, built, comparison_node, expression, height, item, items, items_rest,
    larger, lemma_addition, lemma_item, lemma_items, lemma_items_rest, lemma_member,
    lemma_member_rest, lemma_multiplication, lemma_primary, lemma_relation,
    lemma_tallest_with_one_more, lemma_unary, member, member_rest, method_named, multiplication,
    multiplicative_node, primary, relation, tallest, unary, Comparison, Failure, ParseError,
    ParseErrorKind, Parsed, MAX_DEPTH,
};
use crate::lexical::{comparison, method_of, parse_scalar_literal, skip_name, skip_spaces};
use crate::model::{views, Expression, ExpressionView, Literal, LiteralView, MethodName};
use crate::printer::fits;
use crate::roundtrip::law_expressions_fit;
use crate::text::chars_of;
use vstd::prelude::*;
use vstd::string::StringExecFns;

verus! {

/// What the reader of a rule has read: the tree, the index after it in the
/// text, and the height of the tree.
pub struct Reading {
    pub tree: Expression,
    pub end: usize,
    pub height: usize,
}

/// What the reader of a sequence of items has read: the trees, the index
/// after the closing bracket, and the greatest height among the trees.
pub struct ReadingItems {
    pub trees: Vec<Expression>,
    pub end: usize,
    pub tallest: usize,
}

/// What the reader of a rule returns.
pub type Found = Result<Reading, ParseError>;

/// What the reader of a sequence of items returns.
pub type FoundItems = Result<ReadingItems, ParseError>;

/// The mathematical value of what a reader that began at `pos` returns.
pub open spec fn found_view(r: Found, pos: usize) -> Parsed<ExpressionView> {
    match r {
        Ok(reading) => Ok((reading.tree@, (reading.end - pos) as nat)),
        Err(error) => Err(error@),
    }
}

/// The mathematical value of what a reader of items that began at `pos`
/// returns.
pub open spec fn found_items_view(r: FoundItems, pos: usize) -> Parsed<Seq<ExpressionView>> {
    match r {
        Ok(reading) => Ok((views(reading.trees@), (reading.end - pos) as nat)),
        Err(error) => Err(error@),
    }
}

/// Whether what a reader that began at `pos` has read ends inside the text
/// and is as high as it says, which is at most [`MAX_DEPTH`].
pub open spec fn well_read(r: Found, pos: usize, len: usize) -> bool {
    r matches Ok(reading) ==> {
        &&& pos <= reading.end <= len
        &&& reading.height == height(reading.tree@)
        &&& reading.height <= MAX_DEPTH
    }
}

/// [`well_read`] for a reader of items.
pub open spec fn items_well_read(r: FoundItems, pos: usize, len: usize) -> bool {
    r matches Ok(reading) ==> {
        &&& pos <= reading.end <= len
        &&& reading.tallest == tallest(views(reading.trees@), reading.trees.len() as int)
        &&& reading.tallest <= MAX_DEPTH
    }
}

/// The mathematical value of what [`parse`] returns.
pub open spec fn parse_view(r: Result<Expression, ParseError>) -> Result<ExpressionView, Failure> {
    match r {
        Ok(tree) => Ok(tree@),
        Err(error) => Err(error@),
    }
}

/// A rejection of text that does not go on as the grammar asks.
fn unexpected(position: usize) -> (r: ParseError)
    ensures
        r == (ParseError { kind: ParseErrorKind::UnexpectedInput, position }),
{
    ParseError { kind: ParseErrorKind::UnexpectedInput, position }
}

/// A rejection of text that is nested too deep.
fn too_deep(position: usize) -> (r: ParseError)
    ensures
        r == (ParseError { kind: ParseErrorKind::TooDeep, position }),
{
    ParseError { kind: ParseErrorKind::TooDeep, position }
}

/// The larger of two numbers.
fn max(a: usize, b: usize) -> (r: usize)
    ensures
        r == larger(a as nat, b as nat),
{
    if a >= b {
        a
    } else {
        b
    }
}

/// A tree as what a reader has read, unless it is too high.
fn build(tree: Expression, end: usize, tall: usize, at: usize, pos: usize) -> (r: Found)
    requires
        tall == height(tree@),
        pos <= end,
    ensures
        found_view(r, pos) == built(tree@, (end - pos) as nat, at as int),
        r matches Ok(reading) ==> reading.end == end && reading.height == height(reading.tree@)
            && reading.height <= MAX_DEPTH,
{
    if tall > MAX_DEPTH {
        Err(too_deep(at))
    } else {
        Ok(Reading { tree, end, height: tall })
    }
}

/// The node of a comparison.
fn comparison_expr(op: Comparison, left: Expression, right: Expression) -> (r: Expression)
    ensures
        r@ == comparison_node(op, left@, right@),
        height(r@) == 1 + larger(height(left@), height(right@)),
{
    match op {
        Comparison::Eq => Expression::Eq(Box::new(left), Box::new(right)),
        Comparison::Neq => Expression::Neq(Box::new(left), Box::new(right)),
        Comparison::Lt => Expression::Lt(Box::new(left), Box::new(right)),
        Comparison::Lte => Expression::Lte(Box::new(left), Box::new(right)),
        Comparison::Gte => Expression::Gte(Box::new(left), Box::new(right)),
        Comparison::Gt => Expression::Gt(Box::new(left), Box::new(right)),
    }
}

/// The node of `+` or `-`.
fn additive_expr(op: char, left: Expression, right: Expression) -> (r: Expression)
    ensures
        r@ == additive_node(op, left@, right@),
        height(r@) == 1 + larger(height(left@), height(right@)),
{
    if op == '+' {
        Expression::Add(Box::new(left), Box::new(right))
    } else {
        Expression::Sub(Box::new(left), Box::new(right))
    }
}

/// The node of `*`, `/` or `%`.
fn multiplicative_expr(op: char, left: Expression, right: Expression) -> (r: Expression)
    ensures
        r@ == multiplicative_node(op, left@, right@),
        height(r@) == 1 + larger(height(left@), height(right@)),
{
    if op == '*' {
        Expression::Mul(Box::new(left), Box::new(right))
    } else if op == '/' {
        Expression::Div(Box::new(left), Box::new(right))
    } else {
        Expression::Mod(Box::new(left), Box::new(right))
    }
}

/// The node of `-` or `!`.
fn unary_expr(op: char, operand: Expression) -> (r: Expression)
    ensures
        r@ == (if op == '-' {
            ExpressionView::Neg(Box::new(operand@))
        } else {
            ExpressionView::Not(Box::new(operand@))
        }),
        height(r@) == 1 + height(operand@),
{
    if op == '-' {
        Expression::Neg(Box::new(operand))
    } else {
        Expression::Not(Box::new(operand))
    }
}

/// Reads a relation.
pub fn parse_relation(s: &Vec<char>, pos: usize, depth: usize) -> (r: Found)
    requires
        pos <= s.len(),
        depth <= MAX_DEPTH,
    ensures
        found_view(r, pos) == relation(s@, pos as int, depth as nat),
        well_read(r, pos, s.len()),
    decreases s.len() - pos, 8nat,
{
    proof {
        lemma_relation(s@, pos as int, depth as nat);
    }
    match parse_addition(s, pos, depth) {
        Err(error) => Err(error),
        Ok(left) => {
            let at: usize = skip_spaces(s, left.end);
            match comparison(s, at) {
                None => Ok(left),
                Some((op, after)) => match parse_addition(s, after, depth) {
                    Err(error) => Err(error),
                    Ok(right) => {
                        let tall: usize = 1 + max(left.height, right.height);
                        build(comparison_expr(op, left.tree, right.tree), right.end, tall, at, pos)
                    },
                },
            }
        },
    }
}

/// Reads an addition.
pub fn parse_addition(s: &Vec<char>, pos: usize, depth: usize) -> (r: Found)
    requires
        pos <= s.len(),
        depth <= MAX_DEPTH,
    ensures
        found_view(r, pos) == addition(s@, pos as int, depth as nat),
        well_read(r, pos, s.len()),
    decreases s.len() - pos, 7nat,
{
    proof {
        lemma_addition(s@, pos as int, depth as nat);
    }
    match parse_multiplication(s, pos, depth) {
        Err(error) => Err(error),
        Ok(left) => {
            let at: usize = skip_spaces(s, left.end);
            if at < s.len() && (s[at] == '+' || s[at] == '-') {
                if depth >= MAX_DEPTH {
                    return Err(too_deep(at));
                }
                match parse_addition(s, at + 1, depth + 1) {
                    Err(error) => Err(error),
                    Ok(right) => {
                        let tall: usize = 1 + max(left.height, right.height);
                        let sum = additive_expr(s[at], left.tree, right.tree);
                        build(sum, right.end, tall, at, pos)
                    },
                }
            } else {
                Ok(left)
            }
        },
    }
}

/// Reads a multiplication.
pub fn parse_multiplication(s: &Vec<char>, pos: usize, depth: usize) -> (r: Found)
    requires
        pos <= s.len(),
        depth <= MAX_DEPTH,
    ensures
        found_view(r, pos) == multiplication(s@, pos as int, depth as nat),
        well_read(r, pos, s.len()),
    decreases s.len() - pos, 5nat,
{
    proof {
        lemma_multiplication(s@, pos as int, depth as nat);
    }
    match parse_unary(s, pos, depth) {
        Err(error) => Err(error),
        Ok(left) => {
            let at: usize = skip_spaces(s, left.end);
            if at < s.len() && (s[at] == '*' || s[at] == '/' || s[at] == '%') {
                if depth >= MAX_DEPTH {
                    return Err(too_deep(at));
                }
                match parse_multiplication(s, at + 1, depth + 1) {
                    Err(error) => Err(error),
                    Ok(right) => {
                        let tall: usize = 1 + max(left.height, right.height);
                        let product = multiplicative_expr(s[at], left.tree, right.tree);
                        build(product, right.end, tall, at, pos)
                    },
                }
            } else {
                Ok(left)
            }
        },
    }
}

/// Reads a unary expression.
pub fn parse_unary(s: &Vec<char>, pos: usize, depth: usize) -> (r: Found)
    requires
        pos <= s.len(),
        depth <= MAX_DEPTH,
    ensures
        found_view(r, pos) == unary(s@, pos as int, depth as nat),
        well_read(r, pos, s.len()),
    decreases s.len() - pos, 3nat,
{
    proof {
        lemma_unary(s@, pos as int, depth as nat);
    }
    let at: usize = skip_spaces(s, pos);
    if at < s.len() && (s[at] == '-' || s[at] == '!') {
        if depth >= MAX_DEPTH {
            return Err(too_deep(at));
        }
        match parse_unary(s, at + 1, depth + 1) {
            Err(error) => Err(error),
            Ok(operand) => {
                let tall: usize = 1 + operand.height;
                build(unary_expr(s[at], operand.tree), operand.end, tall, at, pos)
            },
        }
    } else {
        parse_member(s, pos, depth)
    }
}

/// Reads a member expression.
pub fn parse_member(s: &Vec<char>, pos: usize, depth: usize) -> (r: Found)
    requires
        pos <= s.len(),
        depth <= MAX_DEPTH,
    ensures
        found_view(r, pos) == member(s@, pos as int, depth as nat),
        well_read(r, pos, s.len()),
    decreases s.len() - pos, 2nat,
{
    proof {
        lemma_member(s@, pos as int, depth as nat);
    }
    let mut base = match parse_primary(s, pos, depth) {
        Err(error) => {
            return Err(error);
        },
        Ok(found) => found,
    };
    loop
        invariant
            pos <= base.end <= s.len(),
            depth <= MAX_DEPTH,
            base.height == height(base.tree@),
            base.height <= MAX_DEPTH,
            member(s@, pos as int, depth as nat) == member_rest(
                s@,
                pos as int,
                depth as nat,
                (base.end - pos) as nat,
                base.tree@,
            ),
        decreases s.len() - base.end,
    {
        proof {
            lemma_member_rest(s@, pos as int, depth as nat, (base.end - pos) as nat, base.tree@);
        }
        let dot: usize = skip_spaces(s, base.end);
        if !(dot < s.len() && s[dot] == '.') {
            return Ok(base);
        }
        let start: usize = skip_spaces(s, dot + 1);
        let name_end: usize = skip_name(s, start);
        if name_end == start {
            return Err(unexpected(start));
        }
        match method_of(s, start, name_end) {
            None => {
                return Err(ParseError { kind: ParseErrorKind::UnknownMethod, position: start });
            },
            Some(name) => {
                let open: usize = skip_spaces(s, name_end);
                if !(open < s.len() && s[open] == '(') {
                    return Err(unexpected(open));
                }
                if depth >= MAX_DEPTH {
                    return Err(too_deep(open));
                }
                match parse_items(s, open + 1, depth + 1, ')', true) {
                    Err(error) => {
                        return Err(error);
                    },
                    Ok(args) => {
                        let tall: usize = 1 + max(base.height, args.tallest);
                        let call = Expression::Method(Box::new(base.tree), name, args.trees);
                        match build(call, args.end, tall, dot, pos) {
                            Err(error) => {
                                return Err(error);
                            },
                            Ok(found) => {
                                base = found;
                            },
                        }
                    },
                }
            },
        }
    }
}

/// Reads a primary expression.
pub fn parse_primary(s: &Vec<char>, pos: usize, depth: usize) -> (r: Found)
    requires
        pos <= s.len(),
        depth <= MAX_DEPTH,
    ensures
        found_view(r, pos) == primary(s@, pos as int, depth as nat),
        well_read(r, pos, s.len()),
    decreases s.len() - pos, 0nat,
{
    proof {
        lemma_primary(s@, pos as int, depth as nat);
    }
    let at: usize = skip_spaces(s, pos);
    if at < s.len() && s[at] == '(' {
        if depth >= MAX_DEPTH {
            return Err(too_deep(at));
        }
        match parse_relation(s, at + 1, depth + 1) {
            Err(error) => Err(error),
            Ok(inner) => {
                let close: usize = skip_spaces(s, inner.end);
                if close < s.len() && s[close] == ')' {
                    Ok(Reading { tree: inner.tree, end: close + 1, height: inner.height })
                } else {
                    Err(unexpected(close))
                }
            },
        }
    } else if at < s.len() && s[at] == '[' {
        if depth >= MAX_DEPTH {
            return Err(too_deep(at));
        }
        match parse_items(s, at + 1, depth + 1, ']', false) {
            Err(error) => Err(error),
            Ok(elements) => {
                let tall: usize = 1 + elements.tallest;
                let list = Literal::List(elements.trees);
                assert(list@ == LiteralView::List(views(elements.trees@)));
                build(Expression::Lit(list), elements.end, tall, at, pos)
            },
        }
    } else {
        match parse_scalar_literal(s, at) {
            Err(error) => Err(error),
            Ok((value, end)) => {
                Ok(Reading { tree: Expression::Lit(value), end, height: 1 })
            },
        }
    }
}

/// Reads one item of a list or of an argument list.
pub fn parse_item(s: &Vec<char>, pos: usize, depth: usize, argument: bool) -> (r: Found)
    requires
        pos <= s.len(),
        depth <= MAX_DEPTH,
    ensures
        found_view(r, pos) == item(s@, pos as int, depth as nat, argument),
        well_read(r, pos, s.len()),
    decreases s.len() - pos, 9nat,
{
    proof {
        lemma_item(s@, pos as int, depth as nat, argument);
    }
    if argument {
        parse_relation(s, pos, depth)
    } else {
        parse_addition(s, pos, depth)
    }
}

/// Reads the items after an opening bracket up to the closing bracket.
pub fn parse_items(s: &Vec<char>, pos: usize, depth: usize, close: char, argument: bool) -> (r:
    FoundItems)
    requires
        pos <= s.len(),
        depth <= MAX_DEPTH,
    ensures
        found_items_view(r, pos) == items(s@, pos as int, depth as nat, close, argument),
        items_well_read(r, pos, s.len()),
    decreases s.len() - pos, 11nat,
{
    proof {
        lemma_items(s@, pos as int, depth as nat, close, argument);
    }
    let at: usize = skip_spaces(s, pos);
    if at < s.len() && s[at] == close {
        let none: Vec<Expression> = Vec::new();
        assert(views(none@) == Seq::<ExpressionView>::empty());
        return Ok(ReadingItems { trees: none, end: at + 1, tallest: 0 });
    }
    let first = match parse_item(s, pos, depth, argument) {
        Err(error) => {
            return Err(error);
        },
        Ok(found) => found,
    };
    let mut found: Vec<Expression> = Vec::new();
    let mut end: usize = first.end;
    let mut tall: usize = first.height;
    proof {
        lemma_tallest_with_one_more(Seq::empty(), first.tree@);
    }
    found.push(first.tree);
    assert(views(found@) == seq![first.tree@]);
    loop
        invariant
            pos <= end <= s.len(),
            depth <= MAX_DEPTH,
            tall == tallest(views(found@), found.len() as int),
            tall <= MAX_DEPTH,
            items(s@, pos as int, depth as nat, close, argument) == items_rest(
                s@,
                pos as int,
                depth as nat,
                (end - pos) as nat,
                close,
                argument,
                views(found@),
            ),
        decreases s.len() - end,
    {
        proof {
            lemma_items_rest(
                s@,
                pos as int,
                depth as nat,
                (end - pos) as nat,
                close,
                argument,
                views(found@),
            );
        }
        let at: usize = skip_spaces(s, end);
        if at < s.len() && s[at] == close {
            return Ok(ReadingItems { trees: found, end: at + 1, tallest: tall });
        } else if at < s.len() && s[at] == ',' {
            match parse_item(s, at + 1, depth, argument) {
                Err(error) => {
                    return Err(error);
                },
                Ok(next) => {
                    let ghost before = views(found@);
                    proof {
                        lemma_tallest_with_one_more(before, next.tree@);
                    }
                    tall = max(tall, next.height);
                    end = next.end;
                    found.push(next.tree);
                    assert(views(found@) == before.push(next.tree@));
                },
            }
        } else {
            return Err(unexpected(at));
        }
    }
}

/// Reads an expression.
///
/// The text is an expression where it is one relation of the grammar with
/// nothing but white space before and after it. The result is then the tree
/// of that relation, and else the first rejection that reading the text from
/// left to right comes to. A tree that is returned is at most [`MAX_DEPTH`]
/// high, and it is one whose text reads as the tree again.
pub fn parse(input: &str) -> (r: Result<Expression, ParseError>)
    ensures
        parse_view(r) == expression(input@),
        r matches Ok(tree) ==> height(tree@) <= MAX_DEPTH && fits(tree@, 5, 0),
{
    proof {
        if expression(input@) is Ok {
            law_expressions_fit(input@);
        }
    }
    let s = chars_of(input);
    match parse_relation(&s, 0, 0) {
        Err(error) => Err(error),
        Ok(found) => {
            let at: usize = skip_spaces(&s, found.end);
            if at == s.len() {
                Ok(found.tree)
            } else {
                Err(unexpected(at))
            }
        },
    }
}

impl MethodName {
    /// The method with the given name: `len`, `contains` or `pow`. For any
    /// other text the result is a message that quotes it.
    pub fn from_str(s: &str) -> (r: Result<MethodName, String>)
        ensures
            match method_named(s@) {
                Some(name) => r == Ok::<MethodName, String>(name),
                None => r matches Err(message) && message@ == "unknown method '"@ + s@ + "'"@,
            },
    {
        let chars = chars_of(s);
        assert(chars@.subrange(0, chars.len() as int) == chars@);
        match method_of(&chars, 0, chars.len()) {
            Some(name) => Ok(name),
            None => {
                let mut message = String::from_str("unknown method '");
                message.append(s);
                message.append("'");
                Err(message)
            },
        }
    }
}

impl std::str::FromStr for MethodName {
    type Err = String;

    fn from_str(s: &str) -> (r: Result<MethodName, String>)
        ensures
            match method_named(s@) {
                Some(name) => r == Ok::<MethodName, String>(name),
                None => r matches Err(message) && message@ == "unknown method '"@ + s@ + "'"@,
            },
    {
        MethodName::from_str(s)
    }
}

} // verus!
