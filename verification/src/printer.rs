//! The text of a tree.
use crate::grammar::{digit_count, has_char, height, MAX_DEPTH};
use crate::model::{
    views, Expression, ExpressionView, Float, FloatView, Literal, LiteralView, MethodName,
};
use crate::text::{
    chars_of, decimal_digits, digit_char, digit_to_char, push_char, write_decimal,
};
use vstd::prelude::*;
use vstd::string::StringExecFns;

verus! {

// ---------------------------------------------------------------------------
// How tight a node binds
// ---------------------------------------------------------------------------

/// The rule of the grammar that makes a node: 0 for a literal (primary), 1
/// for a method call (member), 2 for `-` and `!` (unary), 3 for `*`, `/` and
/// `%`, 4 for `+` and `-`, 5 for a comparison (relation).
pub open spec fn level_of(e: ExpressionView) -> nat {
    match e {
        ExpressionView::Lit(_) => 0,
        ExpressionView::Method(_, _, _) => 1,
        ExpressionView::Neg(_) | ExpressionView::Not(_) => 2,
        ExpressionView::Mul(_, _) | ExpressionView::Div(_, _) | ExpressionView::Mod(_, _) => 3,
        ExpressionView::Add(_, _) | ExpressionView::Sub(_, _) => 4,
        _ => 5,
    }
}

/// The sign of the operator of a node with two operands.
pub open spec fn operator_text(e: ExpressionView) -> Seq<char> {
    match e {
        ExpressionView::Eq(_, _) => seq!['=', '='],
        ExpressionView::Neq(_, _) => seq!['!', '='],
        ExpressionView::Lt(_, _) => seq!['<'],
        ExpressionView::Lte(_, _) => seq!['<', '='],
        ExpressionView::Gte(_, _) => seq!['>', '='],
        ExpressionView::Gt(_, _) => seq!['>'],
        ExpressionView::Add(_, _) => seq!['+'],
        ExpressionView::Sub(_, _) => seq!['-'],
        ExpressionView::Mul(_, _) => seq!['*'],
        ExpressionView::Div(_, _) => seq!['/'],
        _ => seq!['%'],
    }
}

/// The name of a method as it is written.
pub open spec fn method_letters(name: MethodName) -> Seq<char> {
    match name {
        MethodName::Len => seq!['l', 'e', 'n'],
        MethodName::Contains => seq!['c', 'o', 'n', 't', 'a', 'i', 'n', 's'],
        MethodName::Pow => seq!['p', 'o', 'w'],
    }
}

// ---------------------------------------------------------------------------
// Literals
// ---------------------------------------------------------------------------

/// One character of a string, written so that it reads back as itself: the
/// double quote and the backslash as escape sequences, any other as it is.
pub open spec fn written_char(c: char) -> Seq<char> {
    if c == '"' {
        seq!['\\', '"']
    } else if c == '\\' {
        seq!['\\', 'x', '5', 'c']
    } else {
        seq![c]
    }
}

/// The characters of a string, written one after the other.
pub open spec fn written_chars(text: Seq<char>) -> Seq<char>
    decreases text.len(),
{
    if text.len() == 0 {
        Seq::empty()
    } else {
        written_char(text[0]) + written_chars(text.drop_first())
    }
}

/// One byte, written as an escape sequence with two hexadecimal digits.
pub open spec fn written_byte(b: u8) -> Seq<char> {
    seq!['\\', 'x', digit_char(b as int / 16), digit_char(b as int % 16)]
}

/// The bytes of a byte string, written one after the other.
pub open spec fn written_bytes(bytes: Seq<u8>) -> Seq<char>
    decreases bytes.len(),
{
    if bytes.len() == 0 {
        Seq::empty()
    } else {
        written_byte(bytes[0]) + written_bytes(bytes.drop_first())
    }
}

/// Whether a text is a floating-point literal: digits, a point and digits.
pub open spec fn is_decimal_text(text: Seq<char>) -> bool {
    let whole = digit_count(text, 0) as int;
    &&& whole >= 1
    &&& has_char(text, whole, '.')
    &&& digit_count(text, whole + 1) >= 1
    &&& whole + 1 + digit_count(text, whole + 1) == text.len()
}

// ---------------------------------------------------------------------------
// Trees
// ---------------------------------------------------------------------------

/// The text of a tree where the grammar allows a node of the rule `level` or
/// of a tighter one.
///
/// A node of a looser rule stands in round brackets. An addition or a
/// multiplication writes its left operand one level tighter and its right
/// operand at its own level, as the operators nest to the right; a
/// comparison writes both as additions. Nothing is written between the tokens. A
/// floating-point number that is not a literal has no text in the language:
/// its bits are written in base ten between two number signs.
pub open spec fn printed(e: ExpressionView, level: nat) -> Seq<char>
    decreases e, (if level_of(e) > level { 2nat } else { 1nat }), 0nat,
{
    if level_of(e) > level {
        seq!['('] + printed(e, 5) + seq![')']
    } else {
        match e {
            ExpressionView::Eq(a, b)
            | ExpressionView::Neq(a, b)
            | ExpressionView::Lt(a, b)
            | ExpressionView::Lte(a, b)
            | ExpressionView::Gte(a, b)
            | ExpressionView::Gt(a, b) => printed(*a, 4) + operator_text(e) + printed(*b, 4),
            ExpressionView::Add(a, b) | ExpressionView::Sub(a, b) => printed(*a, 3)
                + operator_text(e) + printed(*b, 4),
            ExpressionView::Mul(a, b)
            | ExpressionView::Div(a, b)
            | ExpressionView::Mod(a, b) => printed(*a, 2) + operator_text(e) + printed(*b, 3),
            ExpressionView::Neg(a) => seq!['-'] + printed(*a, 2),
            ExpressionView::Not(a) => seq!['!'] + printed(*a, 2),
            ExpressionView::Method(receiver, name, args) => printed(*receiver, 1) + seq!['.']
                + method_letters(name) + seq!['('] + printed_items(args, 0, 5) + seq![')'],
            ExpressionView::Lit(LiteralView::List(items)) => seq!['['] + printed_items(
                items,
                0,
                4,
            ) + seq![']'],
            ExpressionView::Lit(LiteralView::I64(x)) => if x >= 0 {
                decimal_digits(x as nat)
            } else {
                seq!['('] + seq!['-'] + decimal_digits((-x) as nat) + seq![')']
            },
            ExpressionView::Lit(LiteralView::F64(FloatView::Decimal(text))) => text,
            ExpressionView::Lit(LiteralView::F64(FloatView::Bits(bits))) => seq!['#']
                + decimal_digits(bits as nat) + seq!['#'],
            ExpressionView::Lit(LiteralView::Bool(b)) => if b {
                seq!['t', 'r', 'u', 'e']
            } else {
                seq!['f', 'a', 'l', 's', 'e']
            },
            ExpressionView::Lit(LiteralView::String(text)) => seq!['"'] + written_chars(text)
                + seq!['"'],
            ExpressionView::Lit(LiteralView::Bytes(bytes)) => seq!['b', '"'] + written_bytes(
                bytes,
            ) + seq!['"'],
        }
    }
}

/// The texts of the trees of a sequence from place `i` on, each written at
/// `level`, with a comma between each two.
pub open spec fn printed_items(items: Seq<ExpressionView>, i: int, level: nat) -> Seq<char>
    decreases items, 0nat, items.len() - i,
{
    if i < 0 || i >= items.len() {
        Seq::empty()
    } else if i == items.len() - 1 {
        printed(items[i], level)
    } else {
        printed(items[i], level) + seq![','] + printed_items(items, i + 1, level)
    }
}

// ---------------------------------------------------------------------------
// The trees that the readers return
// ---------------------------------------------------------------------------

/// Whether a literal that is no list is one that the readers return: an
/// integer is not negative and a floating-point number is a literal.
pub open spec fn literal_fits(value: LiteralView) -> bool {
    match value {
        LiteralView::I64(x) => x >= 0,
        LiteralView::F64(FloatView::Decimal(text)) => is_decimal_text(text),
        LiteralView::F64(FloatView::Bits(_)) => false,
        _ => true,
    }
}

/// Whether a tree can stand where the grammar allows a node of the rule
/// `level`, inside `depth` brackets, unary operators, argument lists and
/// right operands:
/// its text nests no deeper than [`MAX_DEPTH`], no part of it is higher than
/// that, its integers are not negative and its floating-point numbers are
/// literals.
pub open spec fn fits(e: ExpressionView, level: nat, depth: nat) -> bool
    decreases e, (if level_of(e) > level { 2nat } else { 1nat }), 0nat,
{
    if level_of(e) > level {
        depth < MAX_DEPTH && fits(e, 5, depth + 1)
    } else {
        height(e) <= MAX_DEPTH && match e {
            ExpressionView::Eq(a, b)
            | ExpressionView::Neq(a, b)
            | ExpressionView::Lt(a, b)
            | ExpressionView::Lte(a, b)
            | ExpressionView::Gte(a, b)
            | ExpressionView::Gt(a, b) => fits(*a, 4, depth) && fits(*b, 4, depth),
            ExpressionView::Add(a, b) | ExpressionView::Sub(a, b) => fits(*a, 3, depth) && depth
                < MAX_DEPTH && fits(*b, 4, depth + 1),
            ExpressionView::Mul(a, b)
            | ExpressionView::Div(a, b)
            | ExpressionView::Mod(a, b) => fits(*a, 2, depth) && depth < MAX_DEPTH && fits(
                *b,
                3,
                depth + 1,
            ),
            ExpressionView::Neg(a) | ExpressionView::Not(a) => depth < MAX_DEPTH && fits(
                *a,
                2,
                depth + 1,
            ),
            ExpressionView::Method(receiver, _, args) => fits(*receiver, 1, depth) && depth
                < MAX_DEPTH && all_fit(args, 0, 5, depth + 1),
            ExpressionView::Lit(LiteralView::List(items)) => depth < MAX_DEPTH && all_fit(
                items,
                0,
                4,
                depth + 1,
            ),
            ExpressionView::Lit(value) => literal_fits(value),
        }
    }
}

/// [`fits`] for each tree of a sequence from place `i` on.
pub open spec fn all_fit(items: Seq<ExpressionView>, i: int, level: nat, depth: nat) -> bool
    decreases items, 0nat, items.len() - i,
{
    if i < 0 || i >= items.len() {
        true
    } else {
        fits(items[i], level, depth) && all_fit(items, i + 1, level, depth)
    }
}

/// A tree that fits inside more brackets fits inside fewer.
pub proof fn lemma_fits_shallower(e: ExpressionView, level: nat, depth: nat, deeper: nat)
    requires
        depth <= deeper,
        fits(e, level, deeper),
    ensures
        fits(e, level, depth),
    decreases e, (if level_of(e) > level { 2nat } else { 1nat }), 0nat,
{
    if level_of(e) > level {
        lemma_fits_shallower(e, 5, depth + 1, deeper + 1);
    } else {
        match e {
            ExpressionView::Eq(a, b)
            | ExpressionView::Neq(a, b)
            | ExpressionView::Lt(a, b)
            | ExpressionView::Lte(a, b)
            | ExpressionView::Gte(a, b)
            | ExpressionView::Gt(a, b) => {
                lemma_fits_shallower(*a, 4, depth, deeper);
                lemma_fits_shallower(*b, 4, depth, deeper);
            },
            ExpressionView::Add(a, b) | ExpressionView::Sub(a, b) => {
                lemma_fits_shallower(*a, 3, depth, deeper);
                lemma_fits_shallower(*b, 4, depth + 1, deeper + 1);
            },
            ExpressionView::Mul(a, b) | ExpressionView::Div(a, b) | ExpressionView::Mod(a, b) => {
                lemma_fits_shallower(*a, 2, depth, deeper);
                lemma_fits_shallower(*b, 3, depth + 1, deeper + 1);
            },
            ExpressionView::Neg(a) | ExpressionView::Not(a) => {
                lemma_fits_shallower(*a, 2, depth + 1, deeper + 1);
            },
            ExpressionView::Method(receiver, _, args) => {
                lemma_fits_shallower(*receiver, 1, depth, deeper);
                lemma_all_fit_shallower(args, 0, 5, depth + 1, deeper + 1);
            },
            ExpressionView::Lit(LiteralView::List(items)) => {
                lemma_all_fit_shallower(items, 0, 4, depth + 1, deeper + 1);
            },
            ExpressionView::Lit(_) => {},
        }
    }
}

/// [`lemma_fits_shallower`] for the trees of a sequence from place `i` on.
pub proof fn lemma_all_fit_shallower(
    items: Seq<ExpressionView>,
    i: int,
    level: nat,
    depth: nat,
    deeper: nat,
)
    requires
        depth <= deeper,
        all_fit(items, i, level, deeper),
    ensures
        all_fit(items, i, level, depth),
    decreases items, 0nat, items.len() - i,
{
    if 0 <= i < items.len() {
        lemma_fits_shallower(items[i], level, depth, deeper);
        lemma_all_fit_shallower(items, i + 1, level, depth, deeper);
    }
}

/// A tree that fits where a rule is allowed fits where a looser rule is.
pub proof fn lemma_fits_looser(e: ExpressionView, level: nat, looser: nat, depth: nat)
    requires
        level <= looser <= 5,
        fits(e, level, depth),
    ensures
        fits(e, looser, depth),
{
    if level < level_of(e) <= looser {
        lemma_fits_shallower(e, 5, depth, depth + 1);
    }
}

/// A tree that fits inside brackets fits as a primary expression outside
/// them.
pub proof fn lemma_fits_in_brackets(e: ExpressionView, depth: nat)
    requires
        depth < MAX_DEPTH,
        fits(e, 5, depth + 1),
    ensures
        fits(e, 0, depth),
{
    if level_of(e) == 0 {
        lemma_fits_shallower(e, 5, depth, depth + 1);
    }
}

/// The trees of a sequence fit where all but the last fit and the last
/// fits.
pub proof fn lemma_all_fit_with_one_more(
    items: Seq<ExpressionView>,
    tree: ExpressionView,
    i: int,
    level: nat,
    depth: nat,
)
    requires
        0 <= i <= items.len(),
        all_fit(items, i, level, depth),
        fits(tree, level, depth),
    ensures
        all_fit(items.push(tree), i, level, depth),
    decreases items.len() - i,
{
    let longer = items.push(tree);
    if i < items.len() {
        lemma_all_fit_with_one_more(items, tree, i + 1, level, depth);
    } else {
        assert(all_fit(longer, i + 1, level, depth));
    }
}

// ---------------------------------------------------------------------------
// Writing
// ---------------------------------------------------------------------------

/// The rule of the grammar that makes a node.
pub fn level(e: &Expression) -> (r: u8)
    ensures
        r == level_of(e@),
{
    match e {
        Expression::Lit(_) => 0,
        Expression::Method(_, _, _) => 1,
        Expression::Neg(_) | Expression::Not(_) => 2,
        Expression::Mul(_, _) | Expression::Div(_, _) | Expression::Mod(_, _) => 3,
        Expression::Add(_, _) | Expression::Sub(_, _) => 4,
        _ => 5,
    }
}

/// Written characters with one more character after them.
proof fn lemma_written_chars_with_one_more(text: Seq<char>, c: char)
    ensures
        written_chars(text.push(c)) == written_chars(text) + written_char(c),
    decreases text.len(),
{
    let longer = text.push(c);
    if text.len() == 0 {
        assert(written_chars(longer.drop_first()) =~= Seq::<char>::empty());
    } else {
        assert(longer.drop_first() =~= text.drop_first().push(c));
        lemma_written_chars_with_one_more(text.drop_first(), c);
    }
}

/// Written bytes with one more byte after them.
proof fn lemma_written_bytes_with_one_more(bytes: Seq<u8>, b: u8)
    ensures
        written_bytes(bytes.push(b)) == written_bytes(bytes) + written_byte(b),
    decreases bytes.len(),
{
    let longer = bytes.push(b);
    if bytes.len() == 0 {
        assert(written_bytes(longer.drop_first()) =~= Seq::<char>::empty());
    } else {
        assert(longer.drop_first() =~= bytes.drop_first().push(b));
        lemma_written_bytes_with_one_more(bytes.drop_first(), b);
    }
}

/// Writes the characters of a string.
fn write_chars(out: &mut String, text: &String)
    ensures
        final(out)@ == old(out)@ + written_chars(text@),
{
    let chars = chars_of(text.as_str());
    let mut i: usize = 0;
    while i < chars.len()
        invariant
            i <= chars.len(),
            chars@ == text@,
            out@ == old(out)@ + written_chars(chars@.take(i as int)),
        decreases chars.len() - i,
    {
        let c: char = chars[i];
        if c == '"' {
            push_char(out, '\\');
            push_char(out, '"');
        } else if c == '\\' {
            push_char(out, '\\');
            push_char(out, 'x');
            push_char(out, '5');
            push_char(out, 'c');
        } else {
            push_char(out, c);
        }
        proof {
            lemma_written_chars_with_one_more(chars@.take(i as int), c);
            assert(chars@.take(i + 1) =~= chars@.take(i as int).push(c));
        }
        i += 1;
    }
    assert(chars@.take(chars.len() as int) =~= chars@);
}

/// Writes the bytes of a byte string.
fn write_bytes(out: &mut String, bytes: &Vec<u8>)
    ensures
        final(out)@ == old(out)@ + written_bytes(bytes@),
{
    let mut i: usize = 0;
    while i < bytes.len()
        invariant
            i <= bytes.len(),
            out@ == old(out)@ + written_bytes(bytes@.take(i as int)),
        decreases bytes.len() - i,
    {
        let b: u8 = bytes[i];
        push_char(out, '\\');
        push_char(out, 'x');
        push_char(out, digit_to_char(b / 16));
        push_char(out, digit_to_char(b % 16));
        proof {
            lemma_written_bytes_with_one_more(bytes@.take(i as int), b);
            assert(bytes@.take(i + 1) =~= bytes@.take(i as int).push(b));
        }
        i += 1;
    }
    assert(bytes@.take(bytes.len() as int) =~= bytes@);
}

/// Writes the sign of the operator of a node with two operands.
fn write_operator(out: &mut String, e: &Expression)
    ensures
        final(out)@ == old(out)@ + operator_text(e@),
{
    match e {
        Expression::Eq(_, _) => {
            push_char(out, '=');
            push_char(out, '=');
        },
        Expression::Neq(_, _) => {
            push_char(out, '!');
            push_char(out, '=');
        },
        Expression::Lt(_, _) => {
            push_char(out, '<');
        },
        Expression::Lte(_, _) => {
            push_char(out, '<');
            push_char(out, '=');
        },
        Expression::Gte(_, _) => {
            push_char(out, '>');
            push_char(out, '=');
        },
        Expression::Gt(_, _) => {
            push_char(out, '>');
        },
        Expression::Add(_, _) => {
            push_char(out, '+');
        },
        Expression::Sub(_, _) => {
            push_char(out, '-');
        },
        Expression::Mul(_, _) => {
            push_char(out, '*');
        },
        Expression::Div(_, _) => {
            push_char(out, '/');
        },
        _ => {
            push_char(out, '%');
        },
    }
}

/// Writes the name of a method.
fn write_method(out: &mut String, name: MethodName)
    ensures
        final(out)@ == old(out)@ + method_letters(name),
{
    match name {
        MethodName::Len => {
            push_char(out, 'l');
            push_char(out, 'e');
            push_char(out, 'n');
        },
        MethodName::Contains => {
            push_char(out, 'c');
            push_char(out, 'o');
            push_char(out, 'n');
            push_char(out, 't');
            push_char(out, 'a');
            push_char(out, 'i');
            push_char(out, 'n');
            push_char(out, 's');
        },
        MethodName::Pow => {
            push_char(out, 'p');
            push_char(out, 'o');
            push_char(out, 'w');
        },
    }
}

/// Writes a literal that is no list.
fn write_literal(out: &mut String, value: &Literal)
    requires
        !(value is List),
    ensures
        final(out)@ == old(out)@ + printed(ExpressionView::Lit(value@), 0),
{
    match value {
        Literal::I64(x) => {
            if *x >= 0 {
                write_decimal(out, *x as u64);
            } else {
                let size: u64 = if *x == i64::MIN {
                    0x8000_0000_0000_0000
                } else {
                    (-*x) as u64
                };
                push_char(out, '(');
                push_char(out, '-');
                write_decimal(out, size);
                push_char(out, ')');
            }
        },
        Literal::F64(Float::Decimal(text)) => {
            out.append(text.as_str());
        },
        Literal::F64(Float::Bits(bits)) => {
            push_char(out, '#');
            write_decimal(out, *bits);
            push_char(out, '#');
        },
        Literal::Bool(b) => {
            if *b {
                push_char(out, 't');
                push_char(out, 'r');
                push_char(out, 'u');
                push_char(out, 'e');
            } else {
                push_char(out, 'f');
                push_char(out, 'a');
                push_char(out, 'l');
                push_char(out, 's');
                push_char(out, 'e');
            }
        },
        Literal::String(text) => {
            push_char(out, '"');
            write_chars(out, text);
            push_char(out, '"');
        },
        Literal::Bytes(bytes) => {
            push_char(out, 'b');
            push_char(out, '"');
            write_bytes(out, bytes);
            push_char(out, '"');
        },
        Literal::List(_) => {},
    }
}

/// Writes a tree where the grammar allows a node of the rule `at` or of a
/// tighter one.
pub fn write(out: &mut String, e: &Expression, at: u8)
    ensures
        final(out)@ == old(out)@ + printed(e@, at as nat),
    decreases e, (if level_of(e@) > at { 2nat } else { 1nat }),
{
    if level(e) > at {
        push_char(out, '(');
        write(out, e, 5);
        push_char(out, ')');
    } else {
        match e {
            Expression::Eq(a, b)
            | Expression::Neq(a, b)
            | Expression::Lt(a, b)
            | Expression::Lte(a, b)
            | Expression::Gte(a, b)
            | Expression::Gt(a, b) => {
                write(out, a, 4);
                write_operator(out, e);
                write(out, b, 4);
            },
            Expression::Add(a, b) | Expression::Sub(a, b) => {
                write(out, a, 3);
                write_operator(out, e);
                write(out, b, 4);
            },
            Expression::Mul(a, b) | Expression::Div(a, b) | Expression::Mod(a, b) => {
                write(out, a, 2);
                write_operator(out, e);
                write(out, b, 3);
            },
            Expression::Neg(a) => {
                push_char(out, '-');
                write(out, a, 2);
            },
            Expression::Not(a) => {
                push_char(out, '!');
                write(out, a, 2);
            },
            Expression::Method(receiver, name, args) => {
                write(out, receiver, 1);
                push_char(out, '.');
                write_method(out, *name);
                push_char(out, '(');
                write_items(out, args, 5);
                push_char(out, ')');
            },
            Expression::Lit(value) => {
                match value {
                    Literal::List(items) => {
                        assert(value@ == LiteralView::List(views(items@)));
                        push_char(out, '[');
                        write_items(out, items, 4);
                        push_char(out, ']');
                    },
                    _ => {
                        write_literal(out, value);
                    },
                }
            },
        }
    }
}

/// Writes the trees of a vector with a comma between each two.
pub fn write_items(out: &mut String, items: &Vec<Expression>, at: u8)
    ensures
        final(out)@ == old(out)@ + printed_items(views(items@), 0, at as nat),
    decreases items,
{
    let mut i: usize = 0;
    while i < items.len()
        invariant
            i <= items.len(),
            out@ + printed_items(views(items@), i as int, at as nat) == old(out)@ + printed_items(
                views(items@),
                0,
                at as nat,
            ),
        decreases items.len() - i,
    {
        write(out, &items[i], at);
        if i + 1 < items.len() {
            push_char(out, ',');
        }
        i += 1;
    }
}

/// The text of a tree.
///
/// The text of a tree that [`parse`](crate::parsers::parse) has returned is
/// an expression that reads as the same tree.
pub fn print(e: &Expression) -> (r: String)
    ensures
        r@ == printed(e@, 5),
{
    let mut out = String::new();
    write(&mut out, e, 5);
    out
}

} // verus!
