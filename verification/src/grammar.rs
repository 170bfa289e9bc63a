//! The grammar of the language.
//!
//! From the loosest rule to the tightest:
//!
//! ```text
//! Relation       = Addition (("==" | "!=" | "<=" | "<" | ">=" | ">") Addition)?
//! Addition       = Multiplication (("+" | "-") Addition)?
//! Multiplication = Unary (("*" | "/" | "%") Multiplication)?
//! Unary          = ("-" | "!") Unary | Member
//! Member         = Primary ("." Name "(" (Relation ("," Relation)*)? ")")*
//! Primary        = "(" Relation ")" | "[" (Addition ("," Addition)*)? "]" | Literal
//! Literal        = Digits "." Digits | Digits | String | "b" String | "true" | "false"
//! String         = '"' Unit* '"' | "'" Unit* "'"
//! ```
//!
//! White space may stand before every token. The operators of an addition
//! and of a multiplication nest to the right: `a - b - c` is `a - (b - c)`
//! and `a / b / c` is `a / (b / c)`. A name is `len`, `contains` or `pow`.
use crate::model::{ExpressionView, FloatView, LiteralView, MethodName};
use crate::text::{decimal_digits, write_decimal};
use vstd::prelude::*;
use vstd::string::StringExecFns;
use vstd::utf8::{encode_utf8, is_scalar};

verus! {

/// The kinds of rejection.
#[derive(Debug, PartialEq, Eq, Clone, Copy)]
pub enum ParseErrorKind {
    /// The text does not go on as the grammar asks, or ends too early.
    UnexpectedInput,
    /// A backslash in a string or bytes literal does not begin an escape
    /// sequence, or the sequence names no character.
    InvalidEscape,
    /// An integer literal is larger than the largest 64-bit signed integer.
    IntegerTooLarge,
    /// The name after a dot is not the name of a method.
    UnknownMethod,
    /// Brackets, operators or calls are nested deeper than [`MAX_DEPTH`], or
    /// the tree would be higher than that.
    TooDeep,
}

/// The greatest number of brackets, unary operators, argument lists and
/// right operands of additions and multiplications that may stand inside
/// one another, and the greatest height of a tree.
/// The bound keeps the readers, and whoever walks a tree that they return,
/// within a stack of moderate size.
pub const MAX_DEPTH: usize = 256;

/// Why a text is no expression: the kind of the rejection, and the index of
/// the character at which it was found (the length of the text where the
/// text ended too early).
#[derive(Debug, PartialEq, Eq, Clone, Copy)]
pub struct ParseError {
    pub kind: ParseErrorKind,
    pub position: usize,
}

/// The mathematical value of a [`ParseError`].
pub struct Failure {
    pub kind: ParseErrorKind,
    pub position: int,
}

impl ParseError {
    pub open spec fn view(&self) -> Failure {
        Failure { kind: self.kind, position: self.position as int }
    }
}

/// The words for a kind of rejection.
pub open spec fn kind_text(kind: ParseErrorKind) -> Seq<char> {
    match kind {
        ParseErrorKind::UnexpectedInput => "unexpected input"@,
        ParseErrorKind::InvalidEscape => "invalid escape sequence"@,
        ParseErrorKind::IntegerTooLarge => "integer literal too large"@,
        ParseErrorKind::UnknownMethod => "unknown method"@,
        ParseErrorKind::TooDeep => "nested too deep"@,
    }
}

/// The words for a rejection: the words for its kind, and the index of the
/// character at which it was found, in base ten.
pub open spec fn failure_text(failure: Failure) -> Seq<char> {
    kind_text(failure.kind) + " at character "@ + decimal_digits(failure.position as nat)
}

impl ParseError {
    /// The words for this rejection.
    pub fn message(&self) -> (r: String)
        ensures
            r@ == failure_text(self@),
    {
        let mut r = match self.kind {
            ParseErrorKind::UnexpectedInput => String::from_str("unexpected input"),
            ParseErrorKind::InvalidEscape => String::from_str("invalid escape sequence"),
            ParseErrorKind::IntegerTooLarge => String::from_str("integer literal too large"),
            ParseErrorKind::UnknownMethod => String::from_str("unknown method"),
            ParseErrorKind::TooDeep => String::from_str("nested too deep"),
        };
        r.append(" at character ");
        write_decimal(&mut r, self.position as u64);
        r
    }
}

/// What a rule of the grammar finds at a place of the text: a value and the
/// number of characters that it takes up, or a rejection.
pub type Parsed<T> = Result<(T, nat), Failure>;

/// A rejection of the given kind at the given place.
pub open spec fn fail<T>(kind: ParseErrorKind, position: int) -> Parsed<T> {
    Err(Failure { kind, position })
}

/// The number of characters from `pos` to the end of the text.
pub open spec fn remaining(s: Seq<char>, pos: int) -> nat {
    if pos < s.len() {
        (s.len() - pos) as nat
    } else {
        0
    }
}

/// Whether the text has the character `c` at the index `at`.
pub open spec fn has_char(s: Seq<char>, at: int, c: char) -> bool {
    0 <= at < s.len() && s[at] == c
}

// ---------------------------------------------------------------------------
// The height of a tree
// ---------------------------------------------------------------------------

/// The larger of two numbers.
pub open spec fn larger(a: nat, b: nat) -> nat {
    if a >= b {
        a
    } else {
        b
    }
}

/// The height of a tree: the number of nodes on the longest way from the
/// root to a leaf, the items of a list counted as subtrees of the list.
pub open spec fn height(e: ExpressionView) -> nat
    decreases e, 0nat,
{
    match e {
        ExpressionView::Lit(LiteralView::List(items)) => 1 + tallest(items, items.len() as int),
        ExpressionView::Lit(_) => 1,
        ExpressionView::Neg(a) | ExpressionView::Not(a) => 1 + height(*a),
        ExpressionView::Eq(a, b)
        | ExpressionView::Neq(a, b)
        | ExpressionView::Lt(a, b)
        | ExpressionView::Lte(a, b)
        | ExpressionView::Gte(a, b)
        | ExpressionView::Gt(a, b)
        | ExpressionView::Add(a, b)
        | ExpressionView::Sub(a, b)
        | ExpressionView::Mul(a, b)
        | ExpressionView::Div(a, b)
        | ExpressionView::Mod(a, b) => 1 + larger(height(*a), height(*b)),
        ExpressionView::Method(receiver, _, args) => 1 + larger(
            height(*receiver),
            tallest(args, args.len() as int),
        ),
    }
}

/// The greatest height among the first `n` trees of a sequence; zero where
/// there is none.
pub open spec fn tallest(items: Seq<ExpressionView>, n: int) -> nat
    decreases items, n,
{
    if n <= 0 || n > items.len() {
        0
    } else {
        larger(tallest(items, n - 1), height(items[n - 1]))
    }
}

/// A tree as what a rule finds, unless it is too high: the rejection is then
/// at the place `at`.
pub open spec fn built(tree: ExpressionView, taken: nat, at: int) -> Parsed<ExpressionView> {
    if height(tree) > MAX_DEPTH {
        fail(ParseErrorKind::TooDeep, at)
    } else {
        Ok((tree, taken))
    }
}

/// The greatest height among the trees of a sequence does not depend on what
/// comes after them.
pub proof fn lemma_tallest_of_prefix(items: Seq<ExpressionView>, tree: ExpressionView, n: int)
    requires
        n <= items.len(),
    ensures
        tallest(items.push(tree), n) == tallest(items, n),
    decreases n,
{
    if n > 0 {
        lemma_tallest_of_prefix(items, tree, n - 1);
    }
}

/// One more tree makes the greatest height the larger of what it was and the
/// height of the tree.
pub proof fn lemma_tallest_with_one_more(items: Seq<ExpressionView>, tree: ExpressionView)
    ensures
        tallest(items.push(tree), items.len() as int + 1) == larger(
            tallest(items, items.len() as int),
            height(tree),
        ),
{
    lemma_tallest_of_prefix(items, tree, items.len() as int);
}

// ---------------------------------------------------------------------------
// White space
// ---------------------------------------------------------------------------

/// White space: space, tab, line feed, carriage return and form feed.
pub open spec fn is_space(c: char) -> bool {
    c == ' ' || c == '\t' || c == '\n' || c == '\r' || c == '\x0c'
}

/// The number of white-space characters in a row from `pos` on. White space
/// may stand before every token, and after the last.
pub open spec fn spaces(s: Seq<char>, pos: int) -> nat
    decreases s.len() - pos,
{
    if 0 <= pos < s.len() && is_space(s[pos]) {
        1 + spaces(s, pos + 1)
    } else {
        0
    }
}

// ---------------------------------------------------------------------------
// Numbers
// ---------------------------------------------------------------------------

pub open spec fn is_digit(c: char) -> bool {
    '0' <= c <= '9'
}

/// Whether the text has a decimal digit at the index `at`.
pub open spec fn has_digit(s: Seq<char>, at: int) -> bool {
    0 <= at < s.len() && is_digit(s[at])
}

/// The number of decimal digits in a row from `pos` on.
pub open spec fn digit_count(s: Seq<char>, pos: int) -> nat
    decreases s.len() - pos,
{
    if has_digit(s, pos) {
        1 + digit_count(s, pos + 1)
    } else {
        0
    }
}

/// The number that the `n` characters from `pos` on denote in base ten.
pub open spec fn decimal_value(s: Seq<char>, pos: int, n: nat) -> int
    decreases n,
{
    if n == 0 {
        0
    } else {
        decimal_value(s, pos, (n - 1) as nat) * 10 + (s[pos + n - 1] as int - '0' as int)
    }
}

/// The number that begins at the digit at `at`.
///
/// Digits, a point and digits are a floating-point literal, which is kept as
/// its text. Digits that no point and digit follow are an integer literal.
pub open spec fn number(s: Seq<char>, at: int) -> Parsed<LiteralView> {
    let n = digit_count(s, at);
    if has_char(s, at + n, '.') && has_digit(s, at + n + 1) {
        let m = digit_count(s, at + n + 1);
        Ok((LiteralView::F64(FloatView::Decimal(s.subrange(at, at + n + 1 + m))), n + 1 + m))
    } else if decimal_value(s, at, n) > i64::MAX {
        fail(ParseErrorKind::IntegerTooLarge, at)
    } else {
        Ok((LiteralView::I64(decimal_value(s, at, n) as i64), n))
    }
}

// ---------------------------------------------------------------------------
// Strings and bytes
// ---------------------------------------------------------------------------

/// One unit of a string or bytes literal: a byte, which an escape sequence
/// in octal or hexadecimal gives, or a character.
#[derive(Debug, PartialEq, Eq, Clone, Copy)]
pub enum Unit {
    Byte(u8),
    Char(char),
}

pub open spec fn is_octal(c: char) -> bool {
    '0' <= c <= '7'
}

pub open spec fn is_hex(c: char) -> bool {
    ('0' <= c <= '9') || ('a' <= c <= 'f') || ('A' <= c <= 'F')
}

/// The value of a hexadecimal digit.
pub open spec fn hex_value(c: char) -> int {
    if '0' <= c <= '9' {
        c as int - '0' as int
    } else if 'a' <= c <= 'f' {
        c as int - 'a' as int + 10
    } else {
        c as int - 'A' as int + 10
    }
}

/// Whether the text has an octal digit at the index `at`.
pub open spec fn has_octal(s: Seq<char>, at: int) -> bool {
    0 <= at < s.len() && is_octal(s[at])
}

/// Whether the text has a hexadecimal digit at the index `at`.
pub open spec fn has_hex(s: Seq<char>, at: int) -> bool {
    0 <= at < s.len() && is_hex(s[at])
}

/// The value of the octal digit at the index `at`.
pub open spec fn octal_at(s: Seq<char>, at: int) -> int {
    s[at] as int - '0' as int
}

/// The escape sequence that begins with the backslash at `pos`.
///
/// `\t`, `\n` and `\"` stand for tab, line feed and the double quote. `\x`
/// and two hexadecimal digits stand for a byte. `\u` and four hexadecimal
/// digits stand for the character with that code point, which must not be a
/// surrogate. A backslash and octal digits stand for a byte: three digits
/// where the first is at most 3, so that the value is a byte; else two digits
/// where no third octal digit follows them; else the one digit.
pub open spec fn escape(s: Seq<char>, pos: int) -> Parsed<Unit> {
    if has_char(s, pos + 1, 't') {
        Ok((Unit::Byte(9), 2))
    } else if has_char(s, pos + 1, 'n') {
        Ok((Unit::Byte(10), 2))
    } else if has_char(s, pos + 1, '"') {
        Ok((Unit::Byte(34), 2))
    } else if has_char(s, pos + 1, 'x') {
        if has_hex(s, pos + 2) && has_hex(s, pos + 3) {
            Ok((Unit::Byte((hex_value(s[pos + 2]) * 16 + hex_value(s[pos + 3])) as u8), 4))
        } else {
            fail(ParseErrorKind::InvalidEscape, pos)
        }
    } else if has_char(s, pos + 1, 'u') {
        if has_hex(s, pos + 2) && has_hex(s, pos + 3) && has_hex(s, pos + 4) && has_hex(
            s,
            pos + 5,
        ) {
            let code = (hex_value(s[pos + 2]) * 4096 + hex_value(s[pos + 3]) * 256 + hex_value(
                s[pos + 4],
            ) * 16 + hex_value(s[pos + 5])) as u32;
            if is_scalar(code) {
                Ok((Unit::Char(code as char), 6))
            } else {
                fail(ParseErrorKind::InvalidEscape, pos)
            }
        } else {
            fail(ParseErrorKind::InvalidEscape, pos)
        }
    } else if has_octal(s, pos + 1) {
        if has_octal(s, pos + 2) && has_octal(s, pos + 3) {
            if s[pos + 1] <= '3' {
                Ok(
                    (
                        Unit::Byte(
                            (octal_at(s, pos + 1) * 64 + octal_at(s, pos + 2) * 8 + octal_at(
                                s,
                                pos + 3,
                            )) as u8,
                        ),
                        4,
                    ),
                )
            } else {
                Ok((Unit::Byte(octal_at(s, pos + 1) as u8), 2))
            }
        } else if has_octal(s, pos + 2) {
            Ok((Unit::Byte((octal_at(s, pos + 1) * 8 + octal_at(s, pos + 2)) as u8), 3))
        } else {
            Ok((Unit::Byte(octal_at(s, pos + 1) as u8), 2))
        }
    } else {
        fail(ParseErrorKind::InvalidEscape, pos)
    }
}

/// The unit at `pos` inside a literal: an escape sequence, or the character
/// itself.
pub open spec fn unit_at(s: Seq<char>, pos: int) -> Parsed<Unit> {
    if has_char(s, pos, '\\') {
        escape(s, pos)
    } else {
        Ok((Unit::Char(s[pos]), 1))
    }
}

/// The units of a literal from `pos` up to the closing quote, which is the
/// first `quote` outside an escape sequence and is taken too.
pub open spec fn quoted(s: Seq<char>, pos: int, quote: char) -> Parsed<Seq<Unit>>
    decreases remaining(s, pos),
{
    if !(0 <= pos < s.len()) {
        fail(ParseErrorKind::UnexpectedInput, s.len() as int)
    } else if s[pos] == quote {
        Ok((Seq::empty(), 1))
    } else {
        match unit_at(s, pos) {
            Err(failure) => Err(failure),
            Ok((unit, width)) => match quoted(s, pos + width, quote) {
                Err(failure) => Err(failure),
                Ok((rest, more)) => Ok((seq![unit] + rest, width + more)),
            },
        }
    }
}

/// The character that a unit is in a string: a byte is the character with
/// that code point.
pub open spec fn unit_char(unit: Unit) -> char {
    match unit {
        Unit::Byte(b) => b as char,
        Unit::Char(c) => c,
    }
}

/// The bytes that a unit is in a bytes literal: a byte is itself, a
/// character is its UTF-8 encoding.
pub open spec fn unit_bytes(unit: Unit) -> Seq<u8> {
    match unit {
        Unit::Byte(b) => seq![b],
        Unit::Char(c) => encode_utf8(seq![c]),
    }
}

/// The text of a string literal.
pub open spec fn text_of(units: Seq<Unit>) -> Seq<char> {
    units.map_values(|unit: Unit| unit_char(unit))
}

/// The bytes of a bytes literal.
pub open spec fn bytes_of(units: Seq<Unit>) -> Seq<u8>
    decreases units.len(),
{
    if units.len() == 0 {
        Seq::empty()
    } else {
        bytes_of(units.drop_last()) + unit_bytes(units.last())
    }
}

// ---------------------------------------------------------------------------
// Names
// ---------------------------------------------------------------------------

pub open spec fn is_name_start(c: char) -> bool {
    ('a' <= c <= 'z') || ('A' <= c <= 'Z') || c == '_'
}

pub open spec fn is_name_part(c: char) -> bool {
    is_name_start(c) || is_digit(c)
}

/// The number of characters in a row from `pos` on that can stand inside a
/// name.
pub open spec fn name_parts(s: Seq<char>, pos: int) -> nat
    decreases s.len() - pos,
{
    if 0 <= pos < s.len() && is_name_part(s[pos]) {
        1 + name_parts(s, pos + 1)
    } else {
        0
    }
}

/// The length of the name that begins at `at`: a letter or underscore, then
/// letters, digits and underscores. Zero where no name begins.
pub open spec fn name_length(s: Seq<char>, at: int) -> nat {
    if 0 <= at < s.len() && is_name_start(s[at]) {
        1 + name_parts(s, at + 1)
    } else {
        0
    }
}

/// The method that a name stands for.
pub open spec fn method_named(name: Seq<char>) -> Option<MethodName> {
    if name == seq!['l', 'e', 'n'] {
        Some(MethodName::Len)
    } else if name == seq!['c', 'o', 'n', 't', 'a', 'i', 'n', 's'] {
        Some(MethodName::Contains)
    } else if name == seq!['p', 'o', 'w'] {
        Some(MethodName::Pow)
    } else {
        None
    }
}

/// Whether the characters of `word` stand in the text from `at` on.
pub open spec fn has_word(s: Seq<char>, at: int, word: Seq<char>) -> bool {
    0 <= at && at + word.len() <= s.len() && s.subrange(at, at + word.len()) == word
}

// ---------------------------------------------------------------------------
// Literals
// ---------------------------------------------------------------------------

/// The literal that begins at `at`, other than a list: a number, a string in
/// double or single quotes, bytes (the letter `b` and a string), `true` or
/// `false`.
pub open spec fn scalar_literal(s: Seq<char>, at: int) -> Parsed<LiteralView> {
    if has_digit(s, at) {
        number(s, at)
    } else if has_char(s, at, '"') || has_char(s, at, '\'') {
        match quoted(s, at + 1, s[at]) {
            Err(failure) => Err(failure),
            Ok((units, n)) => Ok((LiteralView::String(text_of(units)), 1 + n)),
        }
    } else if has_char(s, at, 'b') && (has_char(s, at + 1, '"') || has_char(s, at + 1, '\'')) {
        match quoted(s, at + 2, s[at + 1]) {
            Err(failure) => Err(failure),
            Ok((units, n)) => Ok((LiteralView::Bytes(bytes_of(units)), 2 + n)),
        }
    } else if has_word(s, at, seq!['t', 'r', 'u', 'e']) {
        Ok((LiteralView::Bool(true), 4))
    } else if has_word(s, at, seq!['f', 'a', 'l', 's', 'e']) {
        Ok((LiteralView::Bool(false), 5))
    } else {
        fail(ParseErrorKind::UnexpectedInput, at)
    }
}

// ---------------------------------------------------------------------------
// Operators
// ---------------------------------------------------------------------------

/// The comparison operators.
#[derive(Debug, PartialEq, Eq, Clone, Copy)]
pub enum Comparison {
    Eq,
    Neq,
    Lt,
    Lte,
    Gte,
    Gt,
}

/// The comparison operator at `at` and its width: `==`, `!=`, `<=`, `<`,
/// `>=` or `>`.
pub open spec fn comparison_at(s: Seq<char>, at: int) -> Option<(Comparison, nat)> {
    if has_char(s, at, '=') && has_char(s, at + 1, '=') {
        Some((Comparison::Eq, 2nat))
    } else if has_char(s, at, '!') && has_char(s, at + 1, '=') {
        Some((Comparison::Neq, 2nat))
    } else if has_char(s, at, '<') && has_char(s, at + 1, '=') {
        Some((Comparison::Lte, 2nat))
    } else if has_char(s, at, '<') {
        Some((Comparison::Lt, 1nat))
    } else if has_char(s, at, '>') && has_char(s, at + 1, '=') {
        Some((Comparison::Gte, 2nat))
    } else if has_char(s, at, '>') {
        Some((Comparison::Gt, 1nat))
    } else {
        None
    }
}

/// The node of a comparison.
pub open spec fn comparison_node(
    op: Comparison,
    left: ExpressionView,
    right: ExpressionView,
) -> ExpressionView {
    match op {
        Comparison::Eq => ExpressionView::Eq(Box::new(left), Box::new(right)),
        Comparison::Neq => ExpressionView::Neq(Box::new(left), Box::new(right)),
        Comparison::Lt => ExpressionView::Lt(Box::new(left), Box::new(right)),
        Comparison::Lte => ExpressionView::Lte(Box::new(left), Box::new(right)),
        Comparison::Gte => ExpressionView::Gte(Box::new(left), Box::new(right)),
        Comparison::Gt => ExpressionView::Gt(Box::new(left), Box::new(right)),
    }
}

/// The node of `+` or `-`.
pub open spec fn additive_node(
    op: char,
    left: ExpressionView,
    right: ExpressionView,
) -> ExpressionView {
    if op == '+' {
        ExpressionView::Add(Box::new(left), Box::new(right))
    } else {
        ExpressionView::Sub(Box::new(left), Box::new(right))
    }
}

/// The node of `*`, `/` or `%`.
pub open spec fn multiplicative_node(
    op: char,
    left: ExpressionView,
    right: ExpressionView,
) -> ExpressionView {
    if op == '*' {
        ExpressionView::Mul(Box::new(left), Box::new(right))
    } else if op == '/' {
        ExpressionView::Div(Box::new(left), Box::new(right))
    } else {
        ExpressionView::Mod(Box::new(left), Box::new(right))
    }
}

// ---------------------------------------------------------------------------
// The rules of the grammar
// ---------------------------------------------------------------------------
//
// Each rule is a function of the text, of the place where it begins and of
// the number of brackets, unary operators, argument lists and right operands
// that it stands inside. It gives the tree and the number of characters taken, white space
// before its tokens included. Where a choice is open the next character
// decides it.

/// A whole text: one relation with nothing but white space around it.
pub open spec fn expression(s: Seq<char>) -> Result<ExpressionView, Failure> {
    match relation(s, 0, 0) {
        Err(failure) => Err(failure),
        Ok((tree, n)) => {
            let end = n + spaces(s, n as int);
            if end == s.len() {
                Ok(tree)
            } else {
                Err(Failure { kind: ParseErrorKind::UnexpectedInput, position: end as int })
            }
        },
    }
}

/// Relation: an addition, or two additions with a comparison operator
/// between them. A comparison is not continued by another.
#[verifier::opaque]
pub open spec fn relation(s: Seq<char>, pos: int, depth: nat) -> Parsed<ExpressionView>
    decreases remaining(s, pos), 8nat,
{
    match addition(s, pos, depth) {
        Err(failure) => Err(failure),
        Ok((left, n)) => {
            let k = spaces(s, pos + n);
            match comparison_at(s, pos + n + k) {
                None => Ok((left, n)),
                Some((op, width)) => match addition(s, pos + n + k + width, depth) {
                    Err(failure) => Err(failure),
                    Ok((right, m)) => built(
                        comparison_node(op, left, right),
                        n + k + width + m,
                        pos + n + k,
                    ),
                },
            }
        },
    }
}

/// Addition: a multiplication, or a multiplication, `+` or `-` and an
/// addition. The operators nest to the right: `a - b - c` is `a - (b - c)`.
#[verifier::opaque]
pub open spec fn addition(s: Seq<char>, pos: int, depth: nat) -> Parsed<ExpressionView>
    decreases remaining(s, pos), 7nat,
{
    match multiplication(s, pos, depth) {
        Err(failure) => Err(failure),
        Ok((left, n)) => {
            let k = spaces(s, pos + n);
            let at = pos + n + k;
            if has_char(s, at, '+') || has_char(s, at, '-') {
                if depth >= MAX_DEPTH {
                    fail(ParseErrorKind::TooDeep, at)
                } else {
                    match addition(s, at + 1, depth + 1) {
                        Err(failure) => Err(failure),
                        Ok((right, m)) => built(
                            additive_node(s[at], left, right),
                            n + k + 1 + m,
                            at,
                        ),
                    }
                }
            } else {
                Ok((left, n))
            }
        },
    }
}

/// Multiplication: a unary expression, or a unary expression, `*`, `/` or
/// `%` and a multiplication. The operators nest to the right: `a / b / c` is
/// `a / (b / c)`.
#[verifier::opaque]
pub open spec fn multiplication(s: Seq<char>, pos: int, depth: nat) -> Parsed<ExpressionView>
    decreases remaining(s, pos), 5nat,
{
    match unary(s, pos, depth) {
        Err(failure) => Err(failure),
        Ok((left, n)) => {
            let k = spaces(s, pos + n);
            let at = pos + n + k;
            if has_char(s, at, '*') || has_char(s, at, '/') || has_char(s, at, '%') {
                if depth >= MAX_DEPTH {
                    fail(ParseErrorKind::TooDeep, at)
                } else {
                    match multiplication(s, at + 1, depth + 1) {
                        Err(failure) => Err(failure),
                        Ok((right, m)) => built(
                            multiplicative_node(s[at], left, right),
                            n + k + 1 + m,
                            at,
                        ),
                    }
                }
            } else {
                Ok((left, n))
            }
        },
    }
}

/// Unary: `-` or `!` before a unary expression, or a member expression.
#[verifier::opaque]
pub open spec fn unary(s: Seq<char>, pos: int, depth: nat) -> Parsed<ExpressionView>
    decreases remaining(s, pos), 3nat,
{
    let k = spaces(s, pos);
    let at = pos + k;
    if has_char(s, at, '-') || has_char(s, at, '!') {
        if depth >= MAX_DEPTH {
            fail(ParseErrorKind::TooDeep, at)
        } else {
            match unary(s, at + 1, depth + 1) {
                Err(failure) => Err(failure),
                Ok((operand, n)) => built(
                    if s[at] == '-' {
                        ExpressionView::Neg(Box::new(operand))
                    } else {
                        ExpressionView::Not(Box::new(operand))
                    },
                    k + 1 + n,
                    at,
                ),
            }
        }
    } else {
        member(s, pos, depth)
    }
}

/// Member: a primary expression and any number of method calls on it, each
/// a dot, a method name and arguments in round brackets. The calls apply
/// from left to right.
#[verifier::opaque]
pub open spec fn member(s: Seq<char>, pos: int, depth: nat) -> Parsed<ExpressionView>
    decreases remaining(s, pos), 2nat,
{
    match primary(s, pos, depth) {
        Err(failure) => Err(failure),
        Ok((base, n)) => member_rest(s, pos, depth, n, base),
    }
}

/// What follows the first `n` characters of a member expression, of which
/// `base` is the tree.
#[verifier::opaque]
pub open spec fn member_rest(
    s: Seq<char>,
    pos: int,
    depth: nat,
    n: nat,
    base: ExpressionView,
) -> Parsed<ExpressionView>
    decreases remaining(s, pos + n), 1nat,
{
    let k = spaces(s, pos + n);
    let dot = pos + n + k;
    if !has_char(s, dot, '.') {
        Ok((base, n))
    } else {
        let k2 = spaces(s, dot + 1);
        let start = dot + 1 + k2;
        let length = name_length(s, start);
        let k3 = spaces(s, start + length);
        let open = start + length + k3;
        if length == 0 {
            fail(ParseErrorKind::UnexpectedInput, start)
        } else {
            match method_named(s.subrange(start, start + length)) {
                None => fail(ParseErrorKind::UnknownMethod, start),
                Some(name) => if !has_char(s, open, '(') {
                    fail(ParseErrorKind::UnexpectedInput, open)
                } else if depth >= MAX_DEPTH {
                    fail(ParseErrorKind::TooDeep, open)
                } else {
                    match items(s, open + 1, depth + 1, ')', true) {
                        Err(failure) => Err(failure),
                        Ok((args, m)) => match built(
                            ExpressionView::Method(Box::new(base), name, args),
                            n + k + 1 + k2 + length + k3 + 1 + m,
                            dot,
                        ) {
                            Err(failure) => Err(failure),
                            Ok((call, taken)) => member_rest(s, pos, depth, taken, call),
                        },
                    }
                },
            }
        }
    }
}

/// Primary: a relation in round brackets, a list in square brackets, or
/// another literal.
#[verifier::opaque]
pub open spec fn primary(s: Seq<char>, pos: int, depth: nat) -> Parsed<ExpressionView>
    decreases remaining(s, pos), 0nat,
{
    let k = spaces(s, pos);
    let at = pos + k;
    if has_char(s, at, '(') {
        if depth >= MAX_DEPTH {
            fail(ParseErrorKind::TooDeep, at)
        } else {
            match relation(s, at + 1, depth + 1) {
                Err(failure) => Err(failure),
                Ok((inner, n)) => {
                    let k2 = spaces(s, at + 1 + n);
                    if has_char(s, at + 1 + n + k2, ')') {
                        Ok((inner, k + 1 + n + k2 + 1))
                    } else {
                        fail(ParseErrorKind::UnexpectedInput, at + 1 + n + k2)
                    }
                },
            }
        }
    } else if has_char(s, at, '[') {
        if depth >= MAX_DEPTH {
            fail(ParseErrorKind::TooDeep, at)
        } else {
            match items(s, at + 1, depth + 1, ']', false) {
                Err(failure) => Err(failure),
                Ok((elements, n)) => built(
                    ExpressionView::Lit(LiteralView::List(elements)),
                    k + 1 + n,
                    at,
                ),
            }
        }
    } else {
        match scalar_literal(s, at) {
            Err(failure) => Err(failure),
            Ok((value, n)) => Ok((ExpressionView::Lit(value), k + n)),
        }
    }
}

/// One item of a list (an addition) or of an argument list (a relation).
#[verifier::opaque]
pub open spec fn item(s: Seq<char>, pos: int, depth: nat, argument: bool) -> Parsed<
    ExpressionView,
>
    decreases remaining(s, pos), 9nat,
{
    if argument {
        relation(s, pos, depth)
    } else {
        addition(s, pos, depth)
    }
}

/// The items after an opening bracket up to the closing bracket `close`,
/// which is taken too: nothing, or items with a comma between each two.
#[verifier::opaque]
pub open spec fn items(
    s: Seq<char>,
    pos: int,
    depth: nat,
    close: char,
    argument: bool,
) -> Parsed<Seq<ExpressionView>>
    decreases remaining(s, pos), 11nat,
{
    let k = spaces(s, pos);
    if has_char(s, pos + k, close) {
        Ok((Seq::empty(), k + 1))
    } else {
        match item(s, pos, depth, argument) {
            Err(failure) => Err(failure),
            Ok((first, n)) => items_rest(s, pos, depth, n, close, argument, seq![first]),
        }
    }
}

/// What follows the first `n` characters of the items, of which `found` are
/// the trees.
#[verifier::opaque]
pub open spec fn items_rest(
    s: Seq<char>,
    pos: int,
    depth: nat,
    n: nat,
    close: char,
    argument: bool,
    found: Seq<ExpressionView>,
) -> Parsed<Seq<ExpressionView>>
    decreases remaining(s, pos + n), 10nat,
{
    let k = spaces(s, pos + n);
    let at = pos + n + k;
    if has_char(s, at, close) {
        Ok((found, n + k + 1))
    } else if has_char(s, at, ',') {
        match item(s, at + 1, depth, argument) {
            Err(failure) => Err(failure),
            Ok((next, m)) => items_rest(
                s,
                pos,
                depth,
                n + k + 1 + m,
                close,
                argument,
                found.push(next),
            ),
        }
    } else {
        fail(ParseErrorKind::UnexpectedInput, at)
    }
}

// ---------------------------------------------------------------------------
// The rules, one step at a time
// ---------------------------------------------------------------------------
//
// The rules above are opaque, so that a proof about one place of a text is
// not drawn into the rules at every other place. Each lemma here states what
// one rule says at one place.

/// What [`relation`] says at one place.
pub proof fn lemma_relation(
    s: Seq<char>,
    pos: int,
    depth: nat,
)
    ensures
        relation(s, pos, depth) == ({
            match addition(s, pos, depth) {
                Err(failure) => Err(failure),
                Ok((left, n)) => {
                    let k = spaces(s, pos + n);
                    match comparison_at(s, pos + n + k) {
                        None => Ok((left, n)),
                        Some((op, width)) => match addition(s, pos + n + k + width, depth) {
                            Err(failure) => Err(failure),
                            Ok((right, m)) => built(
                                comparison_node(op, left, right),
                                n + k + width + m,
                                pos + n + k,
                            ),
                        },
                    }
                },
            }
        }),
{
    reveal(relation);
    reveal(addition);
}

/// What [`addition`] says at one place.
pub proof fn lemma_addition(
    s: Seq<char>,
    pos: int,
    depth: nat,
)
    ensures
        addition(s, pos, depth) == ({
            match multiplication(s, pos, depth) {
                Err(failure) => Err(failure),
                Ok((left, n)) => {
                    let k = spaces(s, pos + n);
                    let at = pos + n + k;
                    if has_char(s, at, '+') || has_char(s, at, '-') {
                        if depth >= MAX_DEPTH {
                            fail(ParseErrorKind::TooDeep, at)
                        } else {
                            match addition(s, at + 1, depth + 1) {
                                Err(failure) => Err(failure),
                                Ok((right, m)) => built(
                                    additive_node(s[at], left, right),
                                    n + k + 1 + m,
                                    at,
                                ),
                            }
                        }
                    } else {
                        Ok((left, n))
                    }
                },
            }
        }),
{
    reveal(addition);
    reveal(multiplication);
}

/// What [`multiplication`] says at one place.
pub proof fn lemma_multiplication(
    s: Seq<char>,
    pos: int,
    depth: nat,
)
    ensures
        multiplication(s, pos, depth) == ({
            match unary(s, pos, depth) {
                Err(failure) => Err(failure),
                Ok((left, n)) => {
                    let k = spaces(s, pos + n);
                    let at = pos + n + k;
                    if has_char(s, at, '*') || has_char(s, at, '/') || has_char(s, at, '%') {
                        if depth >= MAX_DEPTH {
                            fail(ParseErrorKind::TooDeep, at)
                        } else {
                            match multiplication(s, at + 1, depth + 1) {
                                Err(failure) => Err(failure),
                                Ok((right, m)) => built(
                                    multiplicative_node(s[at], left, right),
                                    n + k + 1 + m,
                                    at,
                                ),
                            }
                        }
                    } else {
                        Ok((left, n))
                    }
                },
            }
        }),
{
    reveal(multiplication);
    reveal(unary);
}

/// What [`unary`] says at one place.
pub proof fn lemma_unary(
    s: Seq<char>,
    pos: int,
    depth: nat,
)
    ensures
        unary(s, pos, depth) == ({
            let k = spaces(s, pos);
            let at = pos + k;
            if has_char(s, at, '-') || has_char(s, at, '!') {
                if depth >= MAX_DEPTH {
                    fail(ParseErrorKind::TooDeep, at)
                } else {
                    match unary(s, at + 1, depth + 1) {
                        Err(failure) => Err(failure),
                        Ok((operand, n)) => built(
                            if s[at] == '-' {
                                ExpressionView::Neg(Box::new(operand))
                            } else {
                                ExpressionView::Not(Box::new(operand))
                            },
                            k + 1 + n,
                            at,
                        ),
                    }
                }
            } else {
                member(s, pos, depth)
            }
        }),
{
    reveal(unary);
    reveal(member);
}

/// What [`member`] says at one place.
pub proof fn lemma_member(
    s: Seq<char>,
    pos: int,
    depth: nat,
)
    ensures
        member(s, pos, depth) == ({
            match primary(s, pos, depth) {
                Err(failure) => Err(failure),
                Ok((base, n)) => member_rest(s, pos, depth, n, base),
            }
        }),
{
    reveal(member);
    reveal(primary);
    reveal(member_rest);
}

/// What [`member_rest`] says at one place.
pub proof fn lemma_member_rest(
    s: Seq<char>,
    pos: int,
    depth: nat,
    n: nat,
    base: ExpressionView,
)
    ensures
        member_rest(s, pos, depth, n, base) == ({
            let k = spaces(s, pos + n);
            let dot = pos + n + k;
            if !has_char(s, dot, '.') {
                Ok((base, n))
            } else {
                let k2 = spaces(s, dot + 1);
                let start = dot + 1 + k2;
                let length = name_length(s, start);
                let k3 = spaces(s, start + length);
                let open = start + length + k3;
                if length == 0 {
                    fail(ParseErrorKind::UnexpectedInput, start)
                } else {
                    match method_named(s.subrange(start, start + length)) {
                        None => fail(ParseErrorKind::UnknownMethod, start),
                        Some(name) => if !has_char(s, open, '(') {
                            fail(ParseErrorKind::UnexpectedInput, open)
                        } else if depth >= MAX_DEPTH {
                            fail(ParseErrorKind::TooDeep, open)
                        } else {
                            match items(s, open + 1, depth + 1, ')', true) {
                                Err(failure) => Err(failure),
                                Ok((args, m)) => match built(
                                    ExpressionView::Method(Box::new(base), name, args),
                                    n + k + 1 + k2 + length + k3 + 1 + m,
                                    dot,
                                ) {
                                    Err(failure) => Err(failure),
                                    Ok((call, taken)) => member_rest(s, pos, depth, taken, call),
                                },
                            }
                        },
                    }
                }
            }
        }),
{
    reveal(member_rest);
    reveal(items);
}

/// What [`primary`] says at one place.
pub proof fn lemma_primary(
    s: Seq<char>,
    pos: int,
    depth: nat,
)
    ensures
        primary(s, pos, depth) == ({
            let k = spaces(s, pos);
            let at = pos + k;
            if has_char(s, at, '(') {
                if depth >= MAX_DEPTH {
                    fail(ParseErrorKind::TooDeep, at)
                } else {
                    match relation(s, at + 1, depth + 1) {
                        Err(failure) => Err(failure),
                        Ok((inner, n)) => {
                            let k2 = spaces(s, at + 1 + n);
                            if has_char(s, at + 1 + n + k2, ')') {
                                Ok((inner, k + 1 + n + k2 + 1))
                            } else {
                                fail(ParseErrorKind::UnexpectedInput, at + 1 + n + k2)
                            }
                        },
                    }
                }
            } else if has_char(s, at, '[') {
                if depth >= MAX_DEPTH {
                    fail(ParseErrorKind::TooDeep, at)
                } else {
                    match items(s, at + 1, depth + 1, ']', false) {
                        Err(failure) => Err(failure),
                        Ok((elements, n)) => built(
                            ExpressionView::Lit(LiteralView::List(elements)),
                            k + 1 + n,
                            at,
                        ),
                    }
                }
            } else {
                match scalar_literal(s, at) {
                    Err(failure) => Err(failure),
                    Ok((value, n)) => Ok((ExpressionView::Lit(value), k + n)),
                }
            }
        }),
{
    reveal(primary);
    reveal(relation);
    reveal(items);
}

/// What [`item`] says at one place.
pub proof fn lemma_item(
    s: Seq<char>,
    pos: int,
    depth: nat,
    argument: bool,
)
    ensures
        item(s, pos, depth, argument) == ({
            if argument {
                relation(s, pos, depth)
            } else {
                addition(s, pos, depth)
            }
        }),
{
    reveal(item);
    reveal(relation);
    reveal(addition);
}

/// What [`items`] says at one place.
pub proof fn lemma_items(
    s: Seq<char>,
    pos: int,
    depth: nat,
    close: char,
    argument: bool,
)
    ensures
        items(s, pos, depth, close, argument) == ({
            let k = spaces(s, pos);
            if has_char(s, pos + k, close) {
                Ok((Seq::empty(), k + 1))
            } else {
                match item(s, pos, depth, argument) {
                    Err(failure) => Err(failure),
                    Ok((first, n)) => items_rest(s, pos, depth, n, close, argument, seq![first]),
                }
            }
        }),
{
    reveal(items);
    reveal(item);
    reveal(items_rest);
}

/// What [`items_rest`] says at one place.
pub proof fn lemma_items_rest(
    s: Seq<char>,
    pos: int,
    depth: nat,
    n: nat,
    close: char,
    argument: bool,
    found: Seq<ExpressionView>,
)
    ensures
        items_rest(s, pos, depth, n, close, argument, found) == ({
            let k = spaces(s, pos + n);
            let at = pos + n + k;
            if has_char(s, at, close) {
                Ok((found, n + k + 1))
            } else if has_char(s, at, ',') {
                match item(s, at + 1, depth, argument) {
                    Err(failure) => Err(failure),
                    Ok((next, m)) => items_rest(
                        s,
                        pos,
                        depth,
                        n + k + 1 + m,
                        close,
                        argument,
                        found.push(next),
                    ),
                }
            } else {
                fail(ParseErrorKind::UnexpectedInput, at)
            }
        }),
{
    reveal(items_rest);
    reveal(item);
}

} // verus!
