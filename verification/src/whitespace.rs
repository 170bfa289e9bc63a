//! White space around a text does not change what the text reads as.
use crate::grammar::{
    addition, comparison_at, decimal_value, digit_count, escape, expression, has_char, has_digit,
    has_hex, has_octal, has_word, height, is_name_part, is_name_start, is_space, item, items,
    items_rest, lemma_addition, lemma_item, lemma_items, lemma_items_rest, lemma_member,
    lemma_member_rest, lemma_multiplication, lemma_primary, lemma_relation, lemma_unary, member,
    member_rest, method_named, multiplication, name_length, name_parts, number, primary, quoted,
    relation, remaining, scalar_literal, spaces, unary, unit_at, ParseErrorKind, Parsed,
    MAX_DEPTH,
};
use crate::model::ExpressionView;
use crate::roundtrip::rule;
use vstd::prelude::*;

verus! {

// ---------------------------------------------------------------------------
// A text inside a text
// ---------------------------------------------------------------------------

/// Whether a text is nothing but white space.
pub open spec fn all_spaces(w: Seq<char>) -> bool {
    forall|i: int| 0 <= i < w.len() ==> is_space(#[trigger] w[i])
}

/// Whether `t` holds `s` from the index `off` on, and nothing but white
/// space after it.
pub open spec fn holds(t: Seq<char>, off: int, s: Seq<char>) -> bool {
    &&& 0 <= off
    &&& off + s.len() <= t.len()
    &&& forall|i: int| 0 <= i < s.len() ==> t[off + i] == #[trigger] s[i]
    &&& forall|i: int| off + s.len() <= i < t.len() ==> is_space(#[trigger] t[i])
}

/// The two texts have the same at a place of the inner one, and the outer
/// one has white space after it.
proof fn lemma_same_at(t: Seq<char>, off: int, s: Seq<char>, p: int)
    requires
        holds(t, off, s),
        0 <= p,
    ensures
        p < s.len() ==> t[off + p] == s[p],
        s.len() <= p && off + p < t.len() ==> is_space(t[off + p]),
        forall|c: char| !is_space(c) ==> has_char(t, off + p, c) == #[trigger] has_char(s, p, c),
        has_digit(t, off + p) == has_digit(s, p),
        has_hex(t, off + p) == has_hex(s, p),
        has_octal(t, off + p) == has_octal(s, p),
        (off + p < t.len() && is_name_part(t[off + p])) == (p < s.len() && is_name_part(s[p])),
        (off + p < t.len() && is_name_start(t[off + p])) == (p < s.len() && is_name_start(s[p])),
{
    if p < s.len() {
        assert(t[off + p] == s[p]);
    } else if off + p < t.len() {
        assert(is_space(t[off + p]));
    }
}

/// From a place on where all is white space, the white space goes to the
/// end of the text.
proof fn lemma_spaces_to_the_end(t: Seq<char>, q: int)
    requires
        0 <= q,
        forall|i: int| q <= i < t.len() ==> is_space(#[trigger] t[i]),
    ensures
        q + spaces(t, q) >= t.len(),
    decreases t.len() - q,
{
    if q < t.len() {
        assert(is_space(t[q]));
        lemma_spaces_to_the_end(t, q + 1);
    }
}

/// The white space from a place on ends at the same character in both
/// texts, or at the end of both.
proof fn lemma_same_spaces(t: Seq<char>, off: int, s: Seq<char>, p: int)
    requires
        holds(t, off, s),
        0 <= p,
    ensures
        p + spaces(s, p) < s.len() ==> spaces(t, off + p) == spaces(s, p),
        p + spaces(s, p) >= s.len() ==> off + p + spaces(t, off + p) >= t.len(),
    decreases s.len() - p,
{
    lemma_same_at(t, off, s, p);
    if p < s.len() {
        if is_space(s[p]) {
            lemma_same_spaces(t, off, s, p + 1);
        }
    } else {
        lemma_spaces_to_the_end(t, off + p);
    }
}

/// The digits in a row from a place on are as many in both texts.
proof fn lemma_same_digits(t: Seq<char>, off: int, s: Seq<char>, p: int)
    requires
        holds(t, off, s),
        0 <= p,
    ensures
        digit_count(t, off + p) == digit_count(s, p),
        p + digit_count(s, p) <= s.len() || digit_count(s, p) == 0,
    decreases s.len() - p,
{
    lemma_same_at(t, off, s, p);
    if has_digit(s, p) {
        lemma_same_digits(t, off, s, p + 1);
    }
}

/// Digits inside the inner text denote the same in both texts.
proof fn lemma_same_decimal_value(t: Seq<char>, off: int, s: Seq<char>, p: int, n: nat)
    requires
        holds(t, off, s),
        0 <= p,
        p + n <= s.len(),
    ensures
        decimal_value(t, off + p, n) == decimal_value(s, p, n),
    decreases n,
{
    if n > 0 {
        lemma_same_decimal_value(t, off, s, p, (n - 1) as nat);
        lemma_same_at(t, off, s, p + n - 1);
    }
}

/// A part of the inner text is the same part of the outer text.
proof fn lemma_same_part(t: Seq<char>, off: int, s: Seq<char>, from: int, to: int)
    requires
        holds(t, off, s),
        0 <= from <= to <= s.len(),
    ensures
        t.subrange(off + from, off + to) == s.subrange(from, to),
{
    assert forall|i: int| 0 <= i < to - from implies t.subrange(off + from, off + to)[i]
        == s.subrange(from, to)[i] by {
        lemma_same_at(t, off, s, from + i);
    }
    assert(t.subrange(off + from, off + to) =~= s.subrange(from, to));
}

/// What a rule finds in the inner text and in the outer text is alike: the
/// same value with the same number of characters, or a rejection of the same
/// kind.
pub open spec fn alike<T>(inner: Parsed<T>, outer: Parsed<T>) -> bool {
    match inner {
        Ok(found) => outer == inner,
        Err(failure) => outer is Err && outer->Err_0.kind == failure.kind,
    }
}

/// What a rule finds in the inner text lies inside it.
pub open spec fn inside<T>(found: Parsed<T>, s: Seq<char>, p: int) -> bool {
    found matches Ok(pair) ==> p + pair.1 <= s.len()
}

/// A number reads alike in both texts.
proof fn lemma_same_number(t: Seq<char>, off: int, s: Seq<char>, p: int)
    requires
        holds(t, off, s),
        0 <= p,
        has_digit(s, p),
    ensures
        alike(number(s, p), number(t, off + p)),
        inside(number(s, p), s, p),
{
    let n = digit_count(s, p);
    lemma_same_digits(t, off, s, p);
    lemma_same_at(t, off, s, p + n);
    lemma_same_at(t, off, s, p + n + 1);
    lemma_same_decimal_value(t, off, s, p, n);
    if has_char(s, p + n, '.') && has_digit(s, p + n + 1) {
        lemma_same_digits(t, off, s, p + n + 1);
        lemma_same_part(t, off, s, p, p + n + 1 + digit_count(s, p + n + 1));
    }
}

/// The characters of a name in a row from a place on are as many in both
/// texts.
proof fn lemma_same_name_parts(t: Seq<char>, off: int, s: Seq<char>, p: int)
    requires
        holds(t, off, s),
        0 <= p,
    ensures
        name_parts(t, off + p) == name_parts(s, p),
        p + name_parts(s, p) <= s.len() || name_parts(s, p) == 0,
    decreases s.len() - p,
{
    lemma_same_at(t, off, s, p);
    if p < s.len() && is_name_part(s[p]) {
        lemma_same_name_parts(t, off, s, p + 1);
    }
}

/// A name reads the same in both texts.
proof fn lemma_same_name(t: Seq<char>, off: int, s: Seq<char>, p: int)
    requires
        holds(t, off, s),
        0 <= p,
    ensures
        name_length(t, off + p) == name_length(s, p),
        p + name_length(s, p) <= s.len() || name_length(s, p) == 0,
        t.subrange(off + p, off + p + name_length(s, p)) == s.subrange(p, p + name_length(s, p))
            || name_length(s, p) == 0,
{
    lemma_same_at(t, off, s, p);
    lemma_same_name_parts(t, off, s, p + 1);
    if name_length(s, p) > 0 {
        lemma_same_part(t, off, s, p, p + name_length(s, p));
    }
}

/// A word without white space stands at the same place of both texts.
proof fn lemma_same_word(t: Seq<char>, off: int, s: Seq<char>, p: int, word: Seq<char>)
    requires
        holds(t, off, s),
        0 <= p,
        word.len() > 0,
        forall|i: int| 0 <= i < word.len() ==> !is_space(#[trigger] word[i]),
    ensures
        has_word(t, off + p, word) == has_word(s, p, word),
{
    let n = word.len() as int;
    if has_word(s, p, word) {
        lemma_same_part(t, off, s, p, p + n);
    }
    if has_word(t, off + p, word) {
        assert(t.subrange(off + p, off + p + n)[n - 1] == word[n - 1]);
        lemma_same_at(t, off, s, p + n - 1);
        lemma_same_part(t, off, s, p, p + n);
    }
}

/// An escape sequence reads alike in both texts.
proof fn lemma_same_escape(t: Seq<char>, off: int, s: Seq<char>, p: int)
    requires
        holds(t, off, s),
        0 <= p,
    ensures
        alike(escape(s, p), escape(t, off + p)),
        inside(escape(s, p), s, p),
        escape(s, p) matches Ok(pair) ==> pair.1 >= 1,
{
    lemma_same_at(t, off, s, p + 1);
    lemma_same_at(t, off, s, p + 2);
    lemma_same_at(t, off, s, p + 3);
    lemma_same_at(t, off, s, p + 4);
    lemma_same_at(t, off, s, p + 5);
}

/// In white space that goes to the end of the text no literal in quotes
/// ends.
proof fn lemma_quoted_in_spaces(t: Seq<char>, q: int, quote: char)
    requires
        0 <= q,
        !is_space(quote),
        forall|i: int| q <= i < t.len() ==> is_space(#[trigger] t[i]),
    ensures
        quoted(t, q, quote) is Err,
        quoted(t, q, quote)->Err_0.kind == ParseErrorKind::UnexpectedInput,
    decreases t.len() - q,
{
    if q < t.len() {
        assert(is_space(t[q]));
        lemma_quoted_in_spaces(t, q + 1, quote);
    }
}

/// A literal in quotes reads alike in both texts.
proof fn lemma_same_quoted(t: Seq<char>, off: int, s: Seq<char>, p: int, quote: char)
    requires
        holds(t, off, s),
        0 <= p,
        !is_space(quote),
    ensures
        alike(quoted(s, p, quote), quoted(t, off + p, quote)),
        inside(quoted(s, p, quote), s, p),
    decreases remaining(s, p),
{
    lemma_same_at(t, off, s, p);
    if p >= s.len() {
        lemma_quoted_in_spaces(t, off + p, quote);
    } else if s[p] != quote {
        lemma_same_escape(t, off, s, p);
        if unit_at(s, p) is Ok {
            let width = unit_at(s, p)->Ok_0.1;
            lemma_same_quoted(t, off, s, p + width, quote);
        }
    }
}

/// A literal that is no list reads alike in both texts.
proof fn lemma_same_literal(t: Seq<char>, off: int, s: Seq<char>, p: int)
    requires
        holds(t, off, s),
        0 <= p,
    ensures
        alike(scalar_literal(s, p), scalar_literal(t, off + p)),
        inside(scalar_literal(s, p), s, p),
{
    lemma_same_at(t, off, s, p);
    lemma_same_at(t, off, s, p + 1);
    lemma_same_word(t, off, s, p, seq!['t', 'r', 'u', 'e']);
    lemma_same_word(t, off, s, p, seq!['f', 'a', 'l', 's', 'e']);
    if has_digit(s, p) {
        lemma_same_number(t, off, s, p);
    } else if has_char(s, p, '"') || has_char(s, p, '\'') {
        lemma_same_quoted(t, off, s, p + 1, s[p]);
    } else if has_char(s, p, 'b') && (has_char(s, p + 1, '"') || has_char(s, p + 1, '\'')) {
        lemma_same_quoted(t, off, s, p + 2, s[p + 1]);
    }
}

/// A comparison operator is the same at the same place of both texts.
proof fn lemma_same_comparison(t: Seq<char>, off: int, s: Seq<char>, p: int)
    requires
        holds(t, off, s),
        0 <= p,
    ensures
        comparison_at(t, off + p) == comparison_at(s, p),
{
    lemma_same_at(t, off, s, p);
    lemma_same_at(t, off, s, p + 1);
}


// ---------------------------------------------------------------------------
// The rules inside a text
// ---------------------------------------------------------------------------

/// Whether the places `a` of the inner text and `b` of the outer text are
/// the same place, or each is the end of its text.
pub open spec fn met(t: Seq<char>, off: int, s: Seq<char>, a: int, b: int) -> bool {
    if a < s.len() {
        b == off + a
    } else {
        b >= t.len()
    }
}

/// After the white space from the same place on, both texts are at the same
/// place or at their ends, and have the same character there.
proof fn lemma_skip(t: Seq<char>, off: int, s: Seq<char>, p: int)
    requires
        holds(t, off, s),
        0 <= p,
    ensures
        met(t, off, s, p + spaces(s, p), off + p + spaces(t, off + p)),
        p + spaces(s, p) < s.len() ==> spaces(t, off + p) == spaces(s, p) && t[off + p + spaces(
            s,
            p,
        )] == s[p + spaces(s, p)],
        forall|c: char|
            !is_space(c) ==> has_char(t, off + p + spaces(t, off + p), c) == #[trigger] has_char(
                s,
                p + spaces(s, p),
                c,
            ),
{
    lemma_same_spaces(t, off, s, p);
    lemma_same_at(t, off, s, p + spaces(s, p));
}

/// What follows a member expression reads alike in both texts.
proof fn lemma_same_member_rest(
    t: Seq<char>,
    off: int,
    s: Seq<char>,
    pos: int,
    depth: nat,
    n: nat,
    base: ExpressionView,
)
    requires
        holds(t, off, s),
        0 <= pos,
        pos + n <= s.len(),
    ensures
        alike(member_rest(s, pos, depth, n, base), member_rest(t, off + pos, depth, n, base)),
        inside(member_rest(s, pos, depth, n, base), s, pos),
    decreases remaining(s, pos + n), 2nat,
{
    lemma_member_rest(s, pos, depth, n, base);
    lemma_member_rest(t, off + pos, depth, n, base);
    lemma_skip(t, off, s, pos + n);
    let k = spaces(s, pos + n);
    let dot = pos + n + k;
    if has_char(s, dot, '.') {
        lemma_skip(t, off, s, dot + 1);
        let k2 = spaces(s, dot + 1);
        let start = dot + 1 + k2;
        let length = name_length(s, start);
        if start < s.len() {
            lemma_same_name(t, off, s, start);
        }
        if length > 0 {
            lemma_skip(t, off, s, start + length);
            let k3 = spaces(s, start + length);
            let open = start + length + k3;
            if method_named(s.subrange(start, start + length)) is Some && has_char(s, open, '(')
                && depth < MAX_DEPTH {
                let name = method_named(s.subrange(start, start + length))->Some_0;
                lemma_same_items(t, off, s, open + 1, depth + 1, ')', true);
                if items(s, open + 1, depth + 1, ')', true) is Ok {
                    let args = items(s, open + 1, depth + 1, ')', true)->Ok_0;
                    let call = ExpressionView::Method(Box::new(base), name, args.0);
                    let taken = n + k + 1 + k2 + length + k3 + 1 + args.1;
                    if height(call) <= MAX_DEPTH {
                        lemma_same_member_rest(t, off, s, pos, depth, taken, call);
                    }
                }
            }
        }
    }
}

/// A primary expression reads alike in both texts.
proof fn lemma_same_primary(t: Seq<char>, off: int, s: Seq<char>, pos: int, depth: nat)
    requires
        holds(t, off, s),
        0 <= pos,
    ensures
        alike(primary(s, pos, depth), primary(t, off + pos, depth)),
        inside(primary(s, pos, depth), s, pos),
    decreases remaining(s, pos), 1nat,
{
    lemma_primary(s, pos, depth);
    lemma_primary(t, off + pos, depth);
    lemma_skip(t, off, s, pos);
    let at = pos + spaces(s, pos);
    if has_char(s, at, '(') {
        if depth < MAX_DEPTH {
            lemma_same_rule(t, off, s, 5, at + 1, depth + 1);
            if relation(s, at + 1, depth + 1) is Ok {
                lemma_skip(t, off, s, at + 1 + relation(s, at + 1, depth + 1)->Ok_0.1);
            }
        }
    } else if has_char(s, at, '[') {
        if depth < MAX_DEPTH {
            lemma_same_items(t, off, s, at + 1, depth + 1, ']', false);
        }
    } else if at < s.len() {
        lemma_same_literal(t, off, s, at);
    }
}

/// A member expression reads alike in both texts.
proof fn lemma_same_member(t: Seq<char>, off: int, s: Seq<char>, pos: int, depth: nat)
    requires
        holds(t, off, s),
        0 <= pos,
    ensures
        alike(member(s, pos, depth), member(t, off + pos, depth)),
        inside(member(s, pos, depth), s, pos),
    decreases remaining(s, pos), 3nat,
{
    lemma_member(s, pos, depth);
    lemma_member(t, off + pos, depth);
    lemma_same_rule(t, off, s, 0, pos, depth);
    if primary(s, pos, depth) is Ok {
        let first = primary(s, pos, depth)->Ok_0;
        lemma_same_member_rest(t, off, s, pos, depth, first.1, first.0);
    }
}

/// A unary expression reads alike in both texts.
proof fn lemma_same_unary(t: Seq<char>, off: int, s: Seq<char>, pos: int, depth: nat)
    requires
        holds(t, off, s),
        0 <= pos,
    ensures
        alike(unary(s, pos, depth), unary(t, off + pos, depth)),
        inside(unary(s, pos, depth), s, pos),
    decreases remaining(s, pos), 5nat,
{
    lemma_unary(s, pos, depth);
    lemma_unary(t, off + pos, depth);
    lemma_skip(t, off, s, pos);
    let at = pos + spaces(s, pos);
    if has_char(s, at, '-') || has_char(s, at, '!') {
        if depth < MAX_DEPTH {
            lemma_same_rule(t, off, s, 2, at + 1, depth + 1);
        }
    } else {
        lemma_same_rule(t, off, s, 1, pos, depth);
    }
}

/// A multiplication reads alike in both texts.
proof fn lemma_same_multiplication(t: Seq<char>, off: int, s: Seq<char>, pos: int, depth: nat)
    requires
        holds(t, off, s),
        0 <= pos,
    ensures
        alike(multiplication(s, pos, depth), multiplication(t, off + pos, depth)),
        inside(multiplication(s, pos, depth), s, pos),
    decreases remaining(s, pos), 7nat,
{
    lemma_multiplication(s, pos, depth);
    lemma_multiplication(t, off + pos, depth);
    lemma_same_rule(t, off, s, 2, pos, depth);
    if unary(s, pos, depth) is Ok {
        let n = unary(s, pos, depth)->Ok_0.1;
        lemma_skip(t, off, s, pos + n);
        let at = pos + n + spaces(s, pos + n);
        if (has_char(s, at, '*') || has_char(s, at, '/') || has_char(s, at, '%')) && depth
            < MAX_DEPTH {
            lemma_same_rule(t, off, s, 3, at + 1, depth + 1);
        }
    }
}

/// An addition reads alike in both texts.
proof fn lemma_same_addition(t: Seq<char>, off: int, s: Seq<char>, pos: int, depth: nat)
    requires
        holds(t, off, s),
        0 <= pos,
    ensures
        alike(addition(s, pos, depth), addition(t, off + pos, depth)),
        inside(addition(s, pos, depth), s, pos),
    decreases remaining(s, pos), 9nat,
{
    lemma_addition(s, pos, depth);
    lemma_addition(t, off + pos, depth);
    lemma_same_rule(t, off, s, 3, pos, depth);
    if multiplication(s, pos, depth) is Ok {
        let n = multiplication(s, pos, depth)->Ok_0.1;
        lemma_skip(t, off, s, pos + n);
        let at = pos + n + spaces(s, pos + n);
        if (has_char(s, at, '+') || has_char(s, at, '-')) && depth < MAX_DEPTH {
            lemma_same_rule(t, off, s, 4, at + 1, depth + 1);
        }
    }
}

/// A relation reads alike in both texts.
proof fn lemma_same_relation(t: Seq<char>, off: int, s: Seq<char>, pos: int, depth: nat)
    requires
        holds(t, off, s),
        0 <= pos,
    ensures
        alike(relation(s, pos, depth), relation(t, off + pos, depth)),
        inside(relation(s, pos, depth), s, pos),
    decreases remaining(s, pos), 11nat,
{
    lemma_relation(s, pos, depth);
    lemma_relation(t, off + pos, depth);
    lemma_same_rule(t, off, s, 4, pos, depth);
    if addition(s, pos, depth) is Ok {
        let n = addition(s, pos, depth)->Ok_0.1;
        lemma_skip(t, off, s, pos + n);
        let at = pos + n + spaces(s, pos + n);
        if at < s.len() {
            lemma_same_comparison(t, off, s, at);
            match comparison_at(s, at) {
                None => {},
                Some((op, width)) => {
                    lemma_same_rule(t, off, s, 4, at + width, depth);
                },
            }
        }
    }
}

/// A rule of the grammar reads alike in both texts.
proof fn lemma_same_rule(t: Seq<char>, off: int, s: Seq<char>, level: nat, pos: int, depth: nat)
    requires
        holds(t, off, s),
        level <= 5,
        0 <= pos,
    ensures
        alike(rule(level, s, pos, depth), rule(level, t, off + pos, depth)),
        inside(rule(level, s, pos, depth), s, pos),
    decreases remaining(s, pos), 2 * level + 2,
{
    if level == 0 {
        lemma_same_primary(t, off, s, pos, depth);
    } else if level == 1 {
        lemma_same_member(t, off, s, pos, depth);
    } else if level == 2 {
        lemma_same_unary(t, off, s, pos, depth);
    } else if level == 3 {
        lemma_same_multiplication(t, off, s, pos, depth);
    } else if level == 4 {
        lemma_same_addition(t, off, s, pos, depth);
    } else {
        lemma_same_relation(t, off, s, pos, depth);
    }
}

/// The items up to a closing bracket read alike in both texts.
proof fn lemma_same_items(
    t: Seq<char>,
    off: int,
    s: Seq<char>,
    pos: int,
    depth: nat,
    close: char,
    argument: bool,
)
    requires
        holds(t, off, s),
        0 <= pos,
        !is_space(close),
    ensures
        alike(items(s, pos, depth, close, argument), items(t, off + pos, depth, close, argument)),
        inside(items(s, pos, depth, close, argument), s, pos),
    decreases remaining(s, pos), 2 * item_level(argument) + 4,
{
    lemma_items(s, pos, depth, close, argument);
    lemma_items(t, off + pos, depth, close, argument);
    lemma_skip(t, off, s, pos);
    if !has_char(s, pos + spaces(s, pos), close) {
        lemma_item(s, pos, depth, argument);
        lemma_item(t, off + pos, depth, argument);
        lemma_same_rule(t, off, s, item_level(argument), pos, depth);
        if item(s, pos, depth, argument) is Ok {
            let first = item(s, pos, depth, argument)->Ok_0;
            lemma_same_items_rest(t, off, s, pos, depth, first.1, close, argument, seq![first.0]);
        }
    }
}

/// The level of the rule that reads an item: a relation in an argument list,
/// an addition in a list.
pub open spec fn item_level(argument: bool) -> nat {
    if argument {
        5
    } else {
        4
    }
}

/// What follows the first items reads alike in both texts.
proof fn lemma_same_items_rest(
    t: Seq<char>,
    off: int,
    s: Seq<char>,
    pos: int,
    depth: nat,
    n: nat,
    close: char,
    argument: bool,
    found: Seq<ExpressionView>,
)
    requires
        holds(t, off, s),
        0 <= pos,
        !is_space(close),
    ensures
        alike(
            items_rest(s, pos, depth, n, close, argument, found),
            items_rest(t, off + pos, depth, n, close, argument, found),
        ),
        inside(items_rest(s, pos, depth, n, close, argument, found), s, pos),
    decreases remaining(s, pos + n), 2 * item_level(argument) + 3,
{
    lemma_items_rest(s, pos, depth, n, close, argument, found);
    lemma_items_rest(t, off + pos, depth, n, close, argument, found);
    lemma_skip(t, off, s, pos + n);
    let k = spaces(s, pos + n);
    let at = pos + n + k;
    if !has_char(s, at, close) && has_char(s, at, ',') {
        lemma_item(s, at + 1, depth, argument);
        lemma_item(t, off + at + 1, depth, argument);
        lemma_same_rule(t, off, s, item_level(argument), at + 1, depth);
        if item(s, at + 1, depth, argument) is Ok {
            let next = item(s, at + 1, depth, argument)->Ok_0;
            lemma_same_items_rest(
                t,
                off,
                s,
                pos,
                depth,
                n + k + 1 + next.1,
                close,
                argument,
                found.push(next.0),
            );
        }
    }
}


// ---------------------------------------------------------------------------
// White space before a rule
// ---------------------------------------------------------------------------

/// What a rule finds, with `k` more characters taken.
pub open spec fn with_more<T>(found: Parsed<T>, k: nat) -> Parsed<T> {
    match found {
        Ok((value, n)) => Ok((value, (n + k) as nat)),
        Err(failure) => Err(failure),
    }
}

/// What follows a member expression is the same where the expression began
/// one white-space character earlier.
proof fn lemma_member_rest_from_space(
    t: Seq<char>,
    q: int,
    depth: nat,
    n: nat,
    base: ExpressionView,
)
    requires
        0 <= q,
    ensures
        member_rest(t, q, depth, n + 1, base) == with_more(
            member_rest(t, q + 1, depth, n, base),
            1,
        ),
    decreases remaining(t, q + 1 + n),
{
    lemma_member_rest(t, q, depth, n + 1, base);
    lemma_member_rest(t, q + 1, depth, n, base);
    let k = spaces(t, q + 1 + n);
    let dot = q + 1 + n + k;
    if has_char(t, dot, '.') {
        let k2 = spaces(t, dot + 1);
        let start = dot + 1 + k2;
        let length = name_length(t, start);
        let k3 = spaces(t, start + length);
        let open = start + length + k3;
        if length > 0 && method_named(t.subrange(start, start + length)) is Some && has_char(
            t,
            open,
            '(',
        ) && depth < MAX_DEPTH && items(t, open + 1, depth + 1, ')', true) is Ok {
            let name = method_named(t.subrange(start, start + length))->Some_0;
            let args = items(t, open + 1, depth + 1, ')', true)->Ok_0;
            let call = ExpressionView::Method(Box::new(base), name, args.0);
            let taken = n + k + 1 + k2 + length + k3 + 1 + args.1;
            if height(call) <= MAX_DEPTH {
                lemma_member_rest_from_space(t, q, depth, taken, call);
            }
        }
    }
}

/// A rule that begins at a white-space character finds what it finds after
/// that character, and takes one character more.
proof fn lemma_rule_from_space(level: nat, t: Seq<char>, q: int, depth: nat)
    requires
        level <= 5,
        0 <= q < t.len(),
        is_space(t[q]),
    ensures
        rule(level, t, q, depth) == with_more(rule(level, t, q + 1, depth), 1),
    decreases level,
{
    assert(spaces(t, q) == 1 + spaces(t, q + 1));
    if level == 0 {
        lemma_primary(t, q, depth);
        lemma_primary(t, q + 1, depth);
    } else if level == 1 {
        lemma_member(t, q, depth);
        lemma_member(t, q + 1, depth);
        lemma_rule_from_space(0, t, q, depth);
        if primary(t, q + 1, depth) is Ok {
            let first = primary(t, q + 1, depth)->Ok_0;
            lemma_member_rest_from_space(t, q, depth, first.1, first.0);
        }
    } else if level == 2 {
        lemma_unary(t, q, depth);
        lemma_unary(t, q + 1, depth);
        lemma_rule_from_space(1, t, q, depth);
    } else if level == 3 {
        lemma_multiplication(t, q, depth);
        lemma_multiplication(t, q + 1, depth);
        lemma_rule_from_space(2, t, q, depth);
    } else if level == 4 {
        lemma_addition(t, q, depth);
        lemma_addition(t, q + 1, depth);
        lemma_rule_from_space(3, t, q, depth);
    } else {
        lemma_relation(t, q, depth);
        lemma_relation(t, q + 1, depth);
        lemma_rule_from_space(4, t, q, depth);
    }
}

/// A rule that begins in white space finds what it finds after the white
/// space, and takes that many characters more.
proof fn lemma_rule_from_spaces(level: nat, t: Seq<char>, q: int, off: int, depth: nat)
    requires
        level <= 5,
        0 <= q <= off <= t.len(),
        forall|i: int| q <= i < off ==> is_space(#[trigger] t[i]),
    ensures
        rule(level, t, q, depth) == with_more(rule(level, t, off, depth), (off - q) as nat),
    decreases off - q,
{
    if q < off {
        assert(is_space(t[q]));
        lemma_rule_from_space(level, t, q, depth);
        lemma_rule_from_spaces(level, t, q + 1, off, depth);
    }
}

/// White space does not go on beyond the end of the text.
proof fn lemma_spaces_stay(t: Seq<char>, q: int)
    requires
        0 <= q <= t.len(),
    ensures
        q + spaces(t, q) <= t.len(),
    decreases t.len() - q,
{
    if q < t.len() && is_space(t[q]) {
        lemma_spaces_stay(t, q + 1);
    }
}

// ---------------------------------------------------------------------------
// The law
// ---------------------------------------------------------------------------

/// White space before and after a text changes neither the tree that the
/// text is read as nor, where the text is rejected, the kind of the
/// rejection.
pub proof fn law_white_space_around(before: Seq<char>, s: Seq<char>, after: Seq<char>)
    requires
        all_spaces(before),
        all_spaces(after),
    ensures
        expression(s) is Ok ==> expression(before + s + after) == expression(s),
        expression(s) matches Err(failure) ==> expression(before + s + after) is Err
            && expression(before + s + after)->Err_0.kind == failure.kind,
{
    let t = before + s + after;
    let off = before.len() as int;
    assert forall|i: int| 0 <= i < off implies is_space(#[trigger] t[i]) by {
        assert(t[i] == before[i]);
    }
    assert forall|i: int| off + s.len() <= i < t.len() implies is_space(#[trigger] t[i]) by {
        assert(t[i] == after[i - off - s.len()]);
    }
    assert(holds(t, off, s));
    lemma_same_rule(t, off, s, 5, 0, 0);
    lemma_rule_from_spaces(5, t, 0, off, 0);
    if relation(s, 0, 0) is Ok {
        let n = relation(s, 0, 0)->Ok_0.1;
        lemma_skip(t, off, s, n as int);
        lemma_spaces_stay(s, n as int);
        lemma_spaces_stay(t, off + n);
    }
}

} // verus!
