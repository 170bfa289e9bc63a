//! The text of a tree reads as the tree.
use crate::grammar::{
    addition, additive_node, bytes_of, decimal_value, digit_count, escape, expression, has_char,
    has_digit, has_word, height, hex_value, is_digit, is_hex, is_name_part, is_space, item, items,
    items_rest, lemma_addition, lemma_item, lemma_items, lemma_items_rest, lemma_member,
    lemma_member_rest, lemma_multiplication, lemma_primary, lemma_relation, lemma_unary, member,
    member_rest, method_named, multiplication, multiplicative_node, name_length, name_parts, number,
    primary, quoted, relation, remaining, scalar_literal, spaces, text_of, unary, unit_at,
    unit_bytes, unit_char, Failure, Parsed, Unit, MAX_DEPTH,
};
use crate::lexical::{lemma_decimal_grows, lemma_slice_digit_count};
use crate::model::{ExpressionView, FloatView, LiteralView, MethodName};
use crate::printer::{
    all_fit, fits, is_decimal_text, lemma_all_fit_with_one_more, lemma_fits_in_brackets,
    lemma_fits_looser, level_of, literal_fits, method_letters, operator_text, printed,
    printed_items, written_byte, written_bytes, written_char, written_chars,
};
use crate::text::{decimal_digits, digit_char};
use vstd::prelude::*;

verus! {

// ---------------------------------------------------------------------------
// Texts inside texts
// ---------------------------------------------------------------------------

/// Whether `text` stands in `s` from the index `pos` on.
pub open spec fn stands_at(s: Seq<char>, pos: int, text: Seq<char>) -> bool {
    &&& 0 <= pos
    &&& pos + text.len() <= s.len()
    &&& forall|i: int| 0 <= i < text.len() ==> s[pos + i] == #[trigger] text[i]
}

/// Two texts stand one after the other where their concatenation stands.
pub proof fn lemma_stands_apart(s: Seq<char>, pos: int, a: Seq<char>, b: Seq<char>)
    requires
        stands_at(s, pos, a + b),
    ensures
        stands_at(s, pos, a),
        stands_at(s, pos + a.len(), b),
{
    assert forall|i: int| 0 <= i < a.len() implies s[pos + i] == #[trigger] a[i] by {
        assert((a + b)[i] == a[i]);
    }
    assert forall|i: int| 0 <= i < b.len() implies s[pos + a.len() + i] == #[trigger] b[i] by {
        assert((a + b)[a.len() + i] == b[i]);
    }
}

/// No white space is skipped before a character that is none.
pub proof fn lemma_no_spaces(s: Seq<char>, at: int)
    requires
        at >= s.len() || at < 0 || !is_space(s[at]),
    ensures
        spaces(s, at) == 0,
{
}

// ---------------------------------------------------------------------------
// Numbers
// ---------------------------------------------------------------------------

/// A digit below ten is written as a decimal digit of that value.
proof fn lemma_digit_char(d: int)
    requires
        0 <= d < 10,
    ensures
        is_digit(digit_char(d)),
        digit_char(d) as int - '0' as int == d,
{
}

/// A digit below sixteen is written as a hexadecimal digit of that value.
proof fn lemma_hex_char(d: int)
    requires
        0 <= d < 16,
    ensures
        is_hex(digit_char(d)),
        hex_value(digit_char(d)) == d,
{
}

/// A number is written with digits only, and with one at least.
pub proof fn lemma_decimal_digits_are_digits(n: nat)
    ensures
        decimal_digits(n).len() >= 1,
        forall|i: int| 0 <= i < decimal_digits(n).len() ==> is_digit(#[trigger] decimal_digits(n)[i]),
    decreases n,
{
    if n < 10 {
        lemma_digit_char(n as int);
    } else {
        lemma_decimal_digits_are_digits(n / 10);
        lemma_digit_char((n % 10) as int);
    }
}

/// Digits in a row up to a character that is none count as many as they are.
pub proof fn lemma_digit_run(s: Seq<char>, pos: int, count: nat)
    requires
        0 <= pos,
        pos + count <= s.len(),
        forall|i: int| pos <= i < pos + count ==> is_digit(#[trigger] s[i]),
        !has_digit(s, pos + count),
    ensures
        digit_count(s, pos) == count,
    decreases count,
{
    if count > 0 {
        assert(is_digit(s[pos]));
        lemma_digit_run(s, pos + 1, (count - 1) as nat);
    }
}

/// The digits of a number denote the number.
pub proof fn lemma_decimal_value_of_digits(s: Seq<char>, pos: int, n: nat)
    requires
        stands_at(s, pos, decimal_digits(n)),
    ensures
        decimal_value(s, pos, decimal_digits(n).len()) == n,
    decreases n,
{
    let digits = decimal_digits(n);
    if n < 10 {
        lemma_digit_char(n as int);
        assert(s[pos + 0] == digits[0]);
        assert(decimal_value(s, pos, 0) == 0);
    } else {
        let front = decimal_digits(n / 10);
        let last = digit_char((n % 10) as int);
        assert(digits == front.push(last));
        assert(digits == front + seq![last]);
        lemma_stands_apart(s, pos, front, seq![last]);
        lemma_decimal_value_of_digits(s, pos, n / 10);
        lemma_digit_char((n % 10) as int);
        assert(s[pos + front.len()] == digits[front.len() as int]);
    }
}

/// An integer that is written in base ten, with no digit and no point and
/// digit after it, reads as itself.
pub proof fn lemma_integer_reads_back(s: Seq<char>, at: int, n: nat)
    requires
        n <= i64::MAX,
        stands_at(s, at, decimal_digits(n)),
        !has_digit(s, at + decimal_digits(n).len()),
        !(has_char(s, at + decimal_digits(n).len(), '.') && has_digit(
            s,
            at + decimal_digits(n).len() + 1,
        )),
    ensures
        number(s, at) == Ok::<(LiteralView, nat), Failure>(
            (LiteralView::I64(n as i64), decimal_digits(n).len()),
        ),
        has_digit(s, at),
{
    let digits = decimal_digits(n);
    lemma_decimal_digits_are_digits(n);
    assert forall|i: int| at <= i < at + digits.len() implies is_digit(#[trigger] s[i]) by {
        assert(s[at + (i - at)] == digits[i - at]);
    }
    lemma_digit_run(s, at, digits.len());
    lemma_decimal_value_of_digits(s, at, n);
}

/// The digits of a text inside another count as in the text itself, where
/// the run of digits ends inside the text or no digit follows the text.
pub proof fn lemma_digit_count_inside(s: Seq<char>, at: int, text: Seq<char>, j: int)
    requires
        stands_at(s, at, text),
        0 <= j <= text.len(),
        j + digit_count(text, j) < text.len() || !has_digit(s, at + text.len()),
    ensures
        digit_count(s, at + j) == digit_count(text, j),
    decreases text.len() - j,
{
    if j < text.len() {
        assert(s[at + j] == text[j]);
        if is_digit(text[j]) {
            lemma_digit_count_inside(s, at, text, j + 1);
        }
    }
}

/// A floating-point literal with no digit after it reads as itself.
pub proof fn lemma_decimal_reads_back(s: Seq<char>, at: int, text: Seq<char>)
    requires
        is_decimal_text(text),
        stands_at(s, at, text),
        !has_digit(s, at + text.len()),
    ensures
        number(s, at) == Ok::<(LiteralView, nat), Failure>(
            (LiteralView::F64(FloatView::Decimal(text)), text.len()),
        ),
        has_digit(s, at),
{
    let whole = digit_count(text, 0) as int;
    lemma_digit_count_inside(s, at, text, 0);
    lemma_digit_count_inside(s, at, text, whole + 1);
    assert(s[at + whole] == text[whole]);
    assert(s[at + (whole + 1)] == text[whole + 1]);
    assert(s[at + 0] == text[0]);
    assert(s.subrange(at, at + text.len()) =~= text) by {
        assert forall|i: int| 0 <= i < text.len() implies s.subrange(at, at + text.len())[i]
            == text[i] by {
            assert(s[at + i] == text[i]);
        }
    }
}

// ---------------------------------------------------------------------------
// Strings and bytes
// ---------------------------------------------------------------------------

/// A written character is one unit, which is the character.
proof fn lemma_char_reads_back(s: Seq<char>, pos: int, c: char)
    requires
        stands_at(s, pos, written_char(c)),
    ensures
        s[pos] != '"',
        unit_at(s, pos) matches Ok((unit, width)) && width == written_char(c).len() && unit_char(
            unit,
        ) == c,
{
    let w = written_char(c);
    assert(s[pos + 0] == w[0]);
    if c == '"' {
        assert(s[pos + 1] == w[1]);
    } else if c == '\\' {
        assert(s[pos + 1] == w[1]);
        assert(s[pos + 2] == w[2]);
        assert(s[pos + 3] == w[3]);
        assert(hex_value('5') == 5 && hex_value('c') == 12);
        assert((92int as u8) as char == '\\');
    }
}

/// Written characters with a double quote after them read as the string.
pub proof fn lemma_string_reads_back(s: Seq<char>, pos: int, text: Seq<char>)
    requires
        stands_at(s, pos, written_chars(text) + seq!['"']),
    ensures
        quoted(s, pos, '"') matches Ok((units, taken)) && taken == written_chars(text).len() + 1
            && text_of(units) == text,
    decreases text.len(),
{
    let all = written_chars(text) + seq!['"'];
    if text.len() == 0 {
        assert(s[pos + 0] == all[0]);
        assert(text_of(Seq::<Unit>::empty()) =~= text);
    } else {
        let first = written_char(text[0]);
        let rest = written_chars(text.drop_first());
        assert(all =~= first + (rest + seq!['"']));
        lemma_stands_apart(s, pos, first, rest + seq!['"']);
        lemma_char_reads_back(s, pos, text[0]);
        lemma_string_reads_back(s, pos + first.len(), text.drop_first());
        let unit = unit_at(s, pos)->Ok_0.0;
        let units = quoted(s, pos + first.len(), '"')->Ok_0.0;
        assert(text_of(seq![unit] + units) =~= text) by {
            assert forall|i: int| 0 <= i < text.len() implies text_of(seq![unit] + units)[i]
                == text[i] by {
                if i > 0 {
                    assert((seq![unit] + units)[i] == units[i - 1]);
                    assert(text_of(units)[i - 1] == text.drop_first()[i - 1]);
                }
            }
        }
    }
}

/// The bytes of units with one more unit before them.
proof fn lemma_bytes_of_with_first(unit: Unit, units: Seq<Unit>)
    ensures
        bytes_of(seq![unit] + units) == unit_bytes(unit) + bytes_of(units),
    decreases units.len(),
{
    let all = seq![unit] + units;
    if units.len() == 0 {
        assert(all.drop_last() =~= Seq::<Unit>::empty());
        assert(bytes_of(all.drop_last()) =~= Seq::<u8>::empty());
        assert(bytes_of(units) =~= Seq::<u8>::empty());
        assert(bytes_of(all) =~= unit_bytes(unit));
        assert(unit_bytes(unit) + bytes_of(units) =~= unit_bytes(unit));
    } else {
        lemma_bytes_of_with_first(unit, units.drop_last());
        assert(all.drop_last() =~= seq![unit] + units.drop_last());
        assert(all.last() == units.last());
        assert(bytes_of(all) =~= unit_bytes(unit) + bytes_of(units));
    }
}

/// Written bytes with a double quote after them read as the bytes.
pub proof fn lemma_bytes_read_back(s: Seq<char>, pos: int, bytes: Seq<u8>)
    requires
        stands_at(s, pos, written_bytes(bytes) + seq!['"']),
    ensures
        quoted(s, pos, '"') matches Ok((units, taken)) && taken == written_bytes(bytes).len() + 1
            && bytes_of(units) == bytes,
    decreases bytes.len(),
{
    let all = written_bytes(bytes) + seq!['"'];
    if bytes.len() == 0 {
        assert(s[pos + 0] == all[0]);
        assert(bytes_of(Seq::<Unit>::empty()) =~= bytes);
    } else {
        let b = bytes[0];
        let first = written_byte(b);
        let rest = written_bytes(bytes.drop_first());
        assert(all =~= first + (rest + seq!['"']));
        lemma_stands_apart(s, pos, first, rest + seq!['"']);
        assert(s[pos + 0] == first[0]);
        assert(s[pos + 1] == first[1]);
        assert(s[pos + 2] == first[2]);
        assert(s[pos + 3] == first[3]);
        lemma_hex_char(b as int / 16);
        lemma_hex_char(b as int % 16);
        assert(escape(s, pos) == Ok::<(Unit, nat), Failure>((Unit::Byte(b), 4)));
        lemma_bytes_read_back(s, pos + 4, bytes.drop_first());
        let units = quoted(s, pos + 4, '"')->Ok_0.0;
        lemma_bytes_of_with_first(Unit::Byte(b), units);
        assert(seq![b] + bytes.drop_first() =~= bytes);
    }
}

// ---------------------------------------------------------------------------
// Literals
// ---------------------------------------------------------------------------

/// Whether a character ends what a rule of the given level reads: it is no
/// white space, no digit, and no sign that the rule or a tighter one goes on
/// with.
pub open spec fn is_stop(c: char, level: nat) -> bool {
    &&& !is_space(c)
    &&& !is_digit(c)
    &&& (level >= 1 ==> c != '.')
    &&& (level >= 3 ==> c != '*' && c != '/' && c != '%')
    &&& (level >= 4 ==> c != '+' && c != '-')
    &&& (level >= 5 ==> c != '=' && c != '!' && c != '<' && c != '>')
}

/// Whether the text ends at `at`, or goes on there with a character that
/// ends what a rule of the given level reads. After a primary expression a
/// point may follow that begins no fraction.
pub open spec fn stops(s: Seq<char>, at: int, level: nat) -> bool {
    at >= s.len() || (is_stop(s[at], level) && (s[at] == '.' ==> !has_digit(s, at + 1)))
}

/// The rule of the grammar of the given level.
pub open spec fn rule(level: nat, s: Seq<char>, pos: int, depth: nat) -> Parsed<ExpressionView> {
    if level == 0 {
        primary(s, pos, depth)
    } else if level == 1 {
        member(s, pos, depth)
    } else if level == 2 {
        unary(s, pos, depth)
    } else if level == 3 {
        multiplication(s, pos, depth)
    } else if level == 4 {
        addition(s, pos, depth)
    } else {
        relation(s, pos, depth)
    }
}

/// Whether a character can begin the text of a tree.
pub open spec fn is_start(c: char) -> bool {
    c == '(' || c == '[' || c == '"' || c == 'b' || c == 't' || c == 'f' || is_digit(c) || c == '-'
        || c == '!'
}

/// The text of a tree that fits begins with a character that begins a
/// primary expression, or with a unary operator where the tree is one at
/// its place.
pub proof fn lemma_first_char(e: ExpressionView, level: nat, depth: nat)
    requires
        fits(e, level, depth),
    ensures
        printed(e, level).len() >= 1,
        is_start(printed(e, level)[0]),
        (level_of(e) > level || level_of(e) != 2) && level <= 2 ==> printed(e, level)[0] != '-'
            && printed(e, level)[0] != '!',
    decreases e, (if level_of(e) > level { 2nat } else { 1nat }), 0nat,
{
    if level_of(e) > level {
    } else {
        match e {
            ExpressionView::Eq(a, b)
            | ExpressionView::Neq(a, b)
            | ExpressionView::Lt(a, b)
            | ExpressionView::Lte(a, b)
            | ExpressionView::Gte(a, b)
            | ExpressionView::Gt(a, b) => {
                lemma_first_char(*a, 4, depth);
            },
            ExpressionView::Add(a, b) | ExpressionView::Sub(a, b) => {
                lemma_first_char(*a, 3, depth);
            },
            ExpressionView::Mul(a, b) | ExpressionView::Div(a, b) | ExpressionView::Mod(a, b) => {
                lemma_first_char(*a, 2, depth);
            },
            ExpressionView::Neg(a) | ExpressionView::Not(a) => {},
            ExpressionView::Method(receiver, name, args) => {
                lemma_first_char(*receiver, 1, depth);
            },
            ExpressionView::Lit(LiteralView::I64(x)) => {
                lemma_decimal_digits_are_digits(x as nat);
            },
            ExpressionView::Lit(LiteralView::F64(FloatView::Decimal(text))) => {
                assert(has_digit(text, 0));
            },
            ExpressionView::Lit(_) => {},
        }
    }
}

/// A literal that is no list, written with something after it that ends it,
/// reads as itself.
pub proof fn lemma_literal_reads_back(s: Seq<char>, at: int, value: LiteralView, depth: nat)
    requires
        !(value is List),
        fits(ExpressionView::Lit(value), 0, depth),
        stands_at(s, at, printed(ExpressionView::Lit(value), 0)),
        stops(s, at + printed(ExpressionView::Lit(value), 0).len(), 0),
    ensures
        scalar_literal(s, at) == Ok::<(LiteralView, nat), Failure>(
            (value, printed(ExpressionView::Lit(value), 0).len()),
        ),
        !has_char(s, at, '(') && !has_char(s, at, '['),
{
    let text = printed(ExpressionView::Lit(value), 0);
    match value {
        LiteralView::I64(x) => {
            lemma_integer_reads_back(s, at, x as nat);
            assert(s[at + 0] == text[0]);
        },
        LiteralView::F64(FloatView::Decimal(t)) => {
            lemma_decimal_reads_back(s, at, t);
            assert(s[at + 0] == text[0]);
        },
        LiteralView::F64(FloatView::Bits(_)) => {},
        LiteralView::Bool(b) => {
            assert(s[at + 0] == text[0]);
            assert(s.subrange(at, at + text.len()) =~= text) by {
                assert forall|i: int| 0 <= i < text.len() implies s.subrange(at, at + text.len())[i]
                    == text[i] by {
                    assert(s[at + i] == text[i]);
                }
            }
            if !b {
                let yes = seq!['t', 'r', 'u', 'e'];
                if has_word(s, at, yes) {
                    assert(s.subrange(at, at + 4)[0] == yes[0]);
                }
            }
        },
        LiteralView::String(t) => {
            let inner = written_chars(t) + seq!['"'];
            assert(text =~= seq!['"'] + inner);
            lemma_stands_apart(s, at, seq!['"'], inner);
            assert(s[at + 0] == text[0]);
            lemma_string_reads_back(s, at + 1, t);
        },
        LiteralView::Bytes(t) => {
            let inner = written_bytes(t) + seq!['"'];
            assert(text =~= seq!['b', '"'] + inner);
            lemma_stands_apart(s, at, seq!['b', '"'], inner);
            assert(s[at + 0] == text[0]);
            assert(s[at + 1] == text[1]);
            lemma_bytes_read_back(s, at + 2, t);
        },
        LiteralView::List(_) => {},
    }
}

// ---------------------------------------------------------------------------
// From a tighter rule to a looser one
// ---------------------------------------------------------------------------

/// What a rule has read is what the next looser rule reads, where the text
/// goes on with nothing that the looser rule takes.
pub proof fn lemma_lift(
    level: nat,
    s: Seq<char>,
    pos: int,
    depth: nat,
    e: ExpressionView,
    n: nat,
)
    requires
        1 <= level <= 5,
        0 <= pos,
        rule((level - 1) as nat, s, pos, depth) == Ok::<(ExpressionView, nat), Failure>((e, n)),
        stops(s, pos + n, level),
        level == 2 ==> spaces(s, pos) == 0 && !has_char(s, pos, '-') && !has_char(s, pos, '!'),
    ensures
        rule(level, s, pos, depth) == Ok::<(ExpressionView, nat), Failure>((e, n)),
{
    lemma_no_spaces(s, pos + n);
    if level == 1 {
        lemma_member(s, pos, depth);
        lemma_member_rest(s, pos, depth, n, e);
    } else if level == 2 {
        lemma_unary(s, pos, depth);
    } else if level == 3 {
        lemma_multiplication(s, pos, depth);
    } else if level == 4 {
        lemma_addition(s, pos, depth);
    } else {
        lemma_relation(s, pos, depth);
    }
}

/// [`lemma_lift`] over several levels.
pub proof fn lemma_lift_to(
    from: nat,
    to: nat,
    s: Seq<char>,
    pos: int,
    depth: nat,
    e: ExpressionView,
    n: nat,
)
    requires
        from <= to <= 5,
        0 <= pos,
        rule(from, s, pos, depth) == Ok::<(ExpressionView, nat), Failure>((e, n)),
        stops(s, pos + n, to),
        from < 2 <= to ==> spaces(s, pos) == 0 && !has_char(s, pos, '-') && !has_char(s, pos, '!'),
    ensures
        rule(to, s, pos, depth) == Ok::<(ExpressionView, nat), Failure>((e, n)),
    decreases to - from,
{
    if from < to {
        lemma_lift_to(from, (to - 1) as nat, s, pos, depth, e, n);
        lemma_lift(to, s, pos, depth, e, n);
    }
}

// ---------------------------------------------------------------------------
// One node at a time
// ---------------------------------------------------------------------------

/// A relation in round brackets is a primary expression.
proof fn lemma_brackets_read(s: Seq<char>, pos: int, depth: nat, e: ExpressionView, n: nat)
    requires
        has_char(s, pos, '('),
        depth < MAX_DEPTH,
        relation(s, pos + 1, depth + 1) == Ok::<(ExpressionView, nat), Failure>((e, n)),
        has_char(s, pos + 1 + n, ')'),
    ensures
        primary(s, pos, depth) == Ok::<(ExpressionView, nat), Failure>((e, n + 2)),
{
    lemma_primary(s, pos, depth);
    lemma_no_spaces(s, pos);
    lemma_no_spaces(s, pos + 1 + n);
}

/// A literal that is no list is a primary expression.
proof fn lemma_literal_is_primary(
    s: Seq<char>,
    pos: int,
    depth: nat,
    value: LiteralView,
    n: nat,
)
    requires
        0 <= pos < s.len(),
        !is_space(s[pos]),
        !has_char(s, pos, '(') && !has_char(s, pos, '['),
        scalar_literal(s, pos) == Ok::<(LiteralView, nat), Failure>((value, n)),
    ensures
        primary(s, pos, depth) == Ok::<(ExpressionView, nat), Failure>(
            (ExpressionView::Lit(value), n),
        ),
{
    lemma_primary(s, pos, depth);
    lemma_no_spaces(s, pos);
}

/// Items in square brackets are a primary expression.
proof fn lemma_list_reads(
    s: Seq<char>,
    pos: int,
    depth: nat,
    elements: Seq<ExpressionView>,
    n: nat,
)
    requires
        has_char(s, pos, '['),
        depth < MAX_DEPTH,
        items(s, pos + 1, depth + 1, ']', false) == Ok::<(Seq<ExpressionView>, nat), Failure>(
            (elements, n),
        ),
        height(ExpressionView::Lit(LiteralView::List(elements))) <= MAX_DEPTH,
    ensures
        primary(s, pos, depth) == Ok::<(ExpressionView, nat), Failure>(
            (ExpressionView::Lit(LiteralView::List(elements)), n + 1),
        ),
{
    lemma_primary(s, pos, depth);
    lemma_no_spaces(s, pos);
}

/// A unary operator and its operand are a unary expression.
proof fn lemma_unary_reads(s: Seq<char>, pos: int, depth: nat, operand: ExpressionView, n: nat)
    requires
        has_char(s, pos, '-') || has_char(s, pos, '!'),
        depth < MAX_DEPTH,
        unary(s, pos + 1, depth + 1) == Ok::<(ExpressionView, nat), Failure>((operand, n)),
        height(operand) < MAX_DEPTH,
    ensures
        unary(s, pos, depth) == Ok::<(ExpressionView, nat), Failure>(
            (
                if s[pos] == '-' {
                    ExpressionView::Neg(Box::new(operand))
                } else {
                    ExpressionView::Not(Box::new(operand))
                },
                n + 1,
            ),
        ),
{
    lemma_unary(s, pos, depth);
    lemma_no_spaces(s, pos);
}

/// A multiplication, an operator of an addition and an addition are an
/// addition.
proof fn lemma_addition_reads(
    s: Seq<char>,
    pos: int,
    depth: nat,
    left: ExpressionView,
    n: nat,
    right: ExpressionView,
    m: nat,
)
    requires
        0 <= pos,
        depth < MAX_DEPTH,
        multiplication(s, pos, depth) == Ok::<(ExpressionView, nat), Failure>((left, n)),
        has_char(s, pos + n, '+') || has_char(s, pos + n, '-'),
        addition(s, pos + n + 1, depth + 1) == Ok::<(ExpressionView, nat), Failure>((right, m)),
        height(additive_node(s[pos + n], left, right)) <= MAX_DEPTH,
    ensures
        addition(s, pos, depth) == Ok::<(ExpressionView, nat), Failure>(
            (additive_node(s[pos + n], left, right), n + 1 + m),
        ),
{
    lemma_addition(s, pos, depth);
    lemma_no_spaces(s, pos + n);
}

/// A unary expression, an operator of a multiplication and a multiplication
/// are a multiplication.
proof fn lemma_multiplication_reads(
    s: Seq<char>,
    pos: int,
    depth: nat,
    left: ExpressionView,
    n: nat,
    right: ExpressionView,
    m: nat,
)
    requires
        0 <= pos,
        depth < MAX_DEPTH,
        unary(s, pos, depth) == Ok::<(ExpressionView, nat), Failure>((left, n)),
        has_char(s, pos + n, '*') || has_char(s, pos + n, '/') || has_char(s, pos + n, '%'),
        multiplication(s, pos + n + 1, depth + 1) == Ok::<(ExpressionView, nat), Failure>(
            (right, m),
        ),
        height(multiplicative_node(s[pos + n], left, right)) <= MAX_DEPTH,
    ensures
        multiplication(s, pos, depth) == Ok::<(ExpressionView, nat), Failure>(
            (multiplicative_node(s[pos + n], left, right), n + 1 + m),
        ),
{
    lemma_multiplication(s, pos, depth);
    lemma_no_spaces(s, pos + n);
}

/// The letters of a method's name, with a round bracket after them, are
/// the name of the method.
proof fn lemma_name_reads(s: Seq<char>, start: int, name: MethodName)
    requires
        stands_at(s, start, method_letters(name) + seq!['(']),
    ensures
        name_length(s, start) == method_letters(name).len(),
        method_named(s.subrange(start, start + method_letters(name).len())) == Some(name),
        has_char(s, start + method_letters(name).len(), '('),
        spaces(s, start) == 0,
{
    let letters = method_letters(name);
    lemma_stands_apart(s, start, letters, seq!['(']);
    assert(s[start + letters.len() + 0] == seq!['('][0]);
    assert forall|i: int| 0 <= i < letters.len() implies is_name_part(s[start + i]) && s[start + i]
        == letters[i] by {
        assert(s[start + i] == letters[i]);
    }
    lemma_name_run(s, start + 1, (letters.len() - 1) as nat);
    assert(s[start + 0] == letters[0]);
    assert(s.subrange(start, start + letters.len()) =~= letters) by {
        assert forall|i: int| 0 <= i < letters.len() implies s.subrange(
            start,
            start + letters.len(),
        )[i] == letters[i] by {
            assert(s[start + i] == letters[i]);
        }
    }
    let len = seq!['l', 'e', 'n'];
    let contains = seq!['c', 'o', 'n', 't', 'a', 'i', 'n', 's'];
    let pow = seq!['p', 'o', 'w'];
    assert(len[0] == 'l' && pow[0] == 'p' && contains[0] == 'c');
    assert(len.len() == 3 && pow.len() == 3 && contains.len() == 8);
}

/// Characters of a name in a row up to a character that is none count as
/// many as they are.
proof fn lemma_name_run(s: Seq<char>, pos: int, count: nat)
    requires
        0 <= pos,
        pos + count < s.len(),
        forall|i: int| pos <= i < pos + count ==> is_name_part(#[trigger] s[i]),
        !is_name_part(s[pos + count]),
    ensures
        name_parts(s, pos) == count,
    decreases count,
{
    if count > 0 {
        assert(is_name_part(s[pos]));
        lemma_name_run(s, pos + 1, (count - 1) as nat);
    }
}

/// A point, the name of a method and its arguments go on a member
/// expression.
proof fn lemma_member_goes_on(
    s: Seq<char>,
    pos: int,
    depth: nat,
    n: nat,
    base: ExpressionView,
    name: MethodName,
    args: Seq<ExpressionView>,
    m: nat,
)
    requires
        0 <= pos,
        depth < MAX_DEPTH,
        has_char(s, pos + n, '.'),
        stands_at(s, pos + n + 1, method_letters(name) + seq!['(']),
        items(s, pos + n + 1 + method_letters(name).len() + 1, depth + 1, ')', true) == Ok::<
            (Seq<ExpressionView>, nat),
            Failure,
        >((args, m)),
        height(ExpressionView::Method(Box::new(base), name, args)) <= MAX_DEPTH,
    ensures
        member_rest(s, pos, depth, n, base) == member_rest(
            s,
            pos,
            depth,
            n + 1 + method_letters(name).len() + 1 + m,
            ExpressionView::Method(Box::new(base), name, args),
        ),
{
    lemma_member_rest(s, pos, depth, n, base);
    lemma_no_spaces(s, pos + n);
    lemma_name_reads(s, pos + n + 1, name);
    lemma_no_spaces(s, pos + n + 1 + method_letters(name).len());
}

/// No items and the closing bracket are the items.
proof fn lemma_no_items_read(s: Seq<char>, pos: int, depth: nat, close: char, argument: bool)
    requires
        has_char(s, pos, close),
        !is_space(close),
    ensures
        items(s, pos, depth, close, argument) == Ok::<(Seq<ExpressionView>, nat), Failure>(
            (Seq::empty(), 1),
        ),
{
    lemma_items(s, pos, depth, close, argument);
    lemma_no_spaces(s, pos);
}

/// A first item begins the items.
proof fn lemma_items_begin(
    s: Seq<char>,
    pos: int,
    depth: nat,
    close: char,
    level: nat,
    first: ExpressionView,
    n: nat,
)
    requires
        level == 4 || level == 5,
        0 <= pos < s.len(),
        !is_space(s[pos]),
        s[pos] != close,
        rule(level, s, pos, depth) == Ok::<(ExpressionView, nat), Failure>((first, n)),
    ensures
        items(s, pos, depth, close, level == 5) == items_rest(
            s,
            pos,
            depth,
            n,
            close,
            level == 5,
            seq![first],
        ),
{
    lemma_items(s, pos, depth, close, level == 5);
    lemma_item(s, pos, depth, level == 5);
    lemma_no_spaces(s, pos);
}

/// A comma and a next item go on the items.
proof fn lemma_items_go_on(
    s: Seq<char>,
    pos: int,
    depth: nat,
    n: nat,
    close: char,
    level: nat,
    found: Seq<ExpressionView>,
    next: ExpressionView,
    m: nat,
)
    requires
        level == 4 || level == 5,
        0 <= pos,
        close != ',',
        has_char(s, pos + n, ','),
        rule(level, s, pos + n + 1, depth) == Ok::<(ExpressionView, nat), Failure>((next, m)),
    ensures
        items_rest(s, pos, depth, n, close, level == 5, found) == items_rest(
            s,
            pos,
            depth,
            n + 1 + m,
            close,
            level == 5,
            found.push(next),
        ),
{
    lemma_items_rest(s, pos, depth, n, close, level == 5, found);
    lemma_item(s, pos + n + 1, depth, level == 5);
    lemma_no_spaces(s, pos + n);
}

/// The closing bracket ends the items.
proof fn lemma_items_end(
    s: Seq<char>,
    pos: int,
    depth: nat,
    n: nat,
    close: char,
    argument: bool,
    found: Seq<ExpressionView>,
)
    requires
        0 <= pos,
        !is_space(close),
        has_char(s, pos + n, close),
    ensures
        items_rest(s, pos, depth, n, close, argument, found) == Ok::<
            (Seq<ExpressionView>, nat),
            Failure,
        >((found, n + 1)),
{
    lemma_items_rest(s, pos, depth, n, close, argument, found);
    lemma_no_spaces(s, pos + n);
}

// ---------------------------------------------------------------------------
// A tree's text reads as the tree
// ---------------------------------------------------------------------------

/// 2 where the tree stands in brackets at the level, else 1.
pub open spec fn bracketed(e: ExpressionView, level: nat) -> nat {
    if level_of(e) > level {
        2
    } else {
        1
    }
}

/// What is written of the items from place `i` on after the items before:
/// nothing at the end, and else a comma and the items.
pub open spec fn rest_of_items(items: Seq<ExpressionView>, i: int, level: nat) -> Seq<char> {
    if i >= items.len() {
        Seq::empty()
    } else {
        seq![','] + printed_items(items, i, level)
    }
}

/// The text of a tree that fits, with something after it that ends it,
/// reads by the rule of its level as the tree.
pub proof fn lemma_reads_back(e: ExpressionView, level: nat, s: Seq<char>, pos: int, depth: nat)
    requires
        level <= 5,
        0 <= pos,
        fits(e, level, depth),
        stands_at(s, pos, printed(e, level)),
        stops(s, pos + printed(e, level).len(), level),
    ensures
        rule(level, s, pos, depth) == Ok::<(ExpressionView, nat), Failure>(
            (e, printed(e, level).len()),
        ),
    decreases e, bracketed(e, level), 2 * level,
{
    let text = printed(e, level);
    let end = pos + text.len();
    lemma_first_char(e, level, depth);
    assert(s[pos + 0] == text[0]);
    lemma_no_spaces(s, pos);
    if level_of(e) > level {
        let inner = printed(e, 5);
        assert(text =~= seq!['('] + (inner + seq![')']));
        lemma_stands_apart(s, pos, seq!['('], inner + seq![')']);
        lemma_stands_apart(s, pos + 1, inner, seq![')']);
        assert(s[pos + 1 + inner.len() + 0] == seq![')'][0]);
        lemma_reads_back(e, 5, s, pos + 1, depth + 1);
        lemma_brackets_read(s, pos, depth, e, inner.len());
        lemma_lift_to(0, level, s, pos, depth, e, text.len());
    } else if level_of(e) < level {
        let own = level_of(e);
        lemma_first_char(e, own, depth);
        lemma_reads_back(e, own, s, pos, depth);
        lemma_lift_to(own, level, s, pos, depth, e, text.len());
    } else {
        match e {
            ExpressionView::Eq(a, b)
            | ExpressionView::Neq(a, b)
            | ExpressionView::Lt(a, b)
            | ExpressionView::Lte(a, b)
            | ExpressionView::Gte(a, b)
            | ExpressionView::Gt(a, b) => {
                let pa = printed(*a, 4);
                let op = operator_text(e);
                let pb = printed(*b, 4);
                assert(text =~= pa + (op + pb));
                lemma_stands_apart(s, pos, pa, op + pb);
                lemma_stands_apart(s, pos + pa.len(), op, pb);
                lemma_first_char(*b, 4, depth);
                assert(s[pos + pa.len() + 0] == op[0]);
                if op.len() == 2 {
                    assert(s[pos + pa.len() + 1] == op[1]);
                }
                assert(s[pos + pa.len() + op.len() + 0] == pb[0]);
                lemma_reads_back(*a, 4, s, pos, depth);
                lemma_reads_back(*b, 4, s, pos + pa.len() + op.len(), depth);
                lemma_relation(s, pos, depth);
                lemma_no_spaces(s, pos + pa.len());
            },
            ExpressionView::Add(a, b) | ExpressionView::Sub(a, b) => {
                let pa = printed(*a, 3);
                let op = operator_text(e);
                let pb = printed(*b, 4);
                assert(text =~= pa + (op + pb));
                lemma_stands_apart(s, pos, pa, op + pb);
                lemma_stands_apart(s, pos + pa.len(), op, pb);
                assert(s[pos + pa.len() + 0] == op[0]);
                lemma_reads_back(*a, 3, s, pos, depth);
                lemma_reads_back(*b, 4, s, pos + pa.len() + 1, depth + 1);
                lemma_addition_reads(s, pos, depth, *a, pa.len(), *b, pb.len());
            },
            ExpressionView::Mul(a, b) | ExpressionView::Div(a, b) | ExpressionView::Mod(a, b) => {
                let pa = printed(*a, 2);
                let op = operator_text(e);
                let pb = printed(*b, 3);
                assert(text =~= pa + (op + pb));
                lemma_stands_apart(s, pos, pa, op + pb);
                lemma_stands_apart(s, pos + pa.len(), op, pb);
                assert(s[pos + pa.len() + 0] == op[0]);
                lemma_reads_back(*a, 2, s, pos, depth);
                lemma_reads_back(*b, 3, s, pos + pa.len() + 1, depth + 1);
                lemma_multiplication_reads(s, pos, depth, *a, pa.len(), *b, pb.len());
            },
            ExpressionView::Neg(a) | ExpressionView::Not(a) => {
                let pa = printed(*a, 2);
                let op = if e is Neg {
                    seq!['-']
                } else {
                    seq!['!']
                };
                assert(text =~= op + pa);
                lemma_stands_apart(s, pos, op, pa);
                assert(s[pos + 0] == op[0]);
                lemma_reads_back(*a, 2, s, pos + 1, depth + 1);
                lemma_unary_reads(s, pos, depth, *a, pa.len());
            },
            ExpressionView::Method(receiver, name, args) => {
                lemma_member_chain(e, s, pos, depth);
                lemma_member_rest(s, pos, depth, text.len(), e);
                lemma_no_spaces(s, end);
            },
            ExpressionView::Lit(LiteralView::List(elements)) => {
                let inner = printed_items(elements, 0, 4);
                assert(text =~= seq!['['] + (inner + seq![']']));
                lemma_stands_apart(s, pos, seq!['['], inner + seq![']']);
                lemma_items_read_back(elements, 4, s, pos + 1, depth + 1, ']');
                lemma_list_reads(s, pos, depth, elements, inner.len() + 1);
            },
            ExpressionView::Lit(value) => {
                lemma_literal_reads_back(s, pos, value, depth);
                lemma_literal_is_primary(s, pos, depth, value, text.len());
            },
        }
    }
}

/// The text of a tree that fits, with something after it that ends a
/// primary expression, brings the rule of member expressions to where it
/// has read the tree.
pub proof fn lemma_member_chain(e: ExpressionView, s: Seq<char>, pos: int, depth: nat)
    requires
        0 <= pos,
        fits(e, 1, depth),
        stands_at(s, pos, printed(e, 1)),
        stops(s, pos + printed(e, 1).len(), 0),
    ensures
        member(s, pos, depth) == member_rest(s, pos, depth, printed(e, 1).len(), e),
    decreases e, bracketed(e, 1), 1nat,
{
    let text = printed(e, 1);
    match e {
        ExpressionView::Method(receiver, name, args) => {
            let pr = printed(*receiver, 1);
            let letters = method_letters(name);
            let pargs = printed_items(args, 0, 5);
            assert(text =~= pr + (seq!['.'] + ((letters + seq!['(']) + (pargs + seq![')']))));
            lemma_stands_apart(
                s,
                pos,
                pr,
                seq!['.'] + ((letters + seq!['(']) + (pargs + seq![')'])),
            );
            lemma_stands_apart(
                s,
                pos + pr.len(),
                seq!['.'],
                (letters + seq!['(']) + (pargs + seq![')']),
            );
            lemma_stands_apart(s, pos + pr.len() + 1, letters + seq!['('], pargs + seq![')']);
            assert(s[pos + pr.len() + 0] == seq!['.'][0]);
            assert(s[pos + pr.len() + 1 + 0] == (letters + seq!['('])[0]);
            assert((letters + seq!['('])[0] == letters[0]);
            lemma_member_chain(*receiver, s, pos, depth);
            lemma_items_read_back(
                args,
                5,
                s,
                pos + pr.len() + 1 + letters.len() + 1,
                depth + 1,
                ')',
            );
            lemma_member_goes_on(s, pos, depth, pr.len(), *receiver, name, args, pargs.len() + 1);
        },
        _ => {
            lemma_reads_back(e, 0, s, pos, depth);
            lemma_member(s, pos, depth);
        },
    }
}

/// The texts of items with the closing bracket after them read as the
/// items.
pub proof fn lemma_items_read_back(
    elements: Seq<ExpressionView>,
    level: nat,
    s: Seq<char>,
    pos: int,
    depth: nat,
    close: char,
)
    requires
        level == 4 || level == 5,
        close == ')' || close == ']',
        0 <= pos,
        all_fit(elements, 0, level, depth),
        stands_at(s, pos, printed_items(elements, 0, level) + seq![close]),
    ensures
        items(s, pos, depth, close, level == 5) == Ok::<(Seq<ExpressionView>, nat), Failure>(
            (elements, printed_items(elements, 0, level).len() + 1),
        ),
    decreases elements, 0nat, elements.len() + 1,
{
    let text = printed_items(elements, 0, level);
    if elements.len() == 0 {
        assert(s[pos + 0] == (text + seq![close])[0]);
        assert(elements =~= Seq::<ExpressionView>::empty());
        lemma_no_items_read(s, pos, depth, close, level == 5);
    } else {
        let first = printed(elements[0], level);
        let rest = rest_of_items(elements, 1, level);
        assert(text =~= first + rest);
        assert(text + seq![close] =~= first + (rest + seq![close]));
        lemma_stands_apart(s, pos, first, rest + seq![close]);
        lemma_first_char(elements[0], level, depth);
        assert(s[pos + 0] == first[0]);
        assert(s[pos + first.len() + 0] == (rest + seq![close])[0]);
        lemma_reads_back(elements[0], level, s, pos, depth);
        lemma_items_begin(s, pos, depth, close, level, elements[0], first.len());
        assert(seq![elements[0]] =~= elements.take(1));
        lemma_items_rest_read_back(elements, 1, level, s, pos, depth, close, first.len());
    }
}

/// The texts of the items from place `i` on, with the closing bracket after
/// them, bring the items that are read so far to all the items.
pub proof fn lemma_items_rest_read_back(
    elements: Seq<ExpressionView>,
    i: int,
    level: nat,
    s: Seq<char>,
    pos: int,
    depth: nat,
    close: char,
    n: nat,
)
    requires
        level == 4 || level == 5,
        close == ')' || close == ']',
        0 <= pos,
        1 <= i <= elements.len(),
        all_fit(elements, i, level, depth),
        stands_at(s, pos + n, rest_of_items(elements, i, level) + seq![close]),
    ensures
        items_rest(s, pos, depth, n, close, level == 5, elements.take(i)) == Ok::<
            (Seq<ExpressionView>, nat),
            Failure,
        >((elements, n + rest_of_items(elements, i, level).len() + 1)),
    decreases elements, 0nat, elements.len() - i,
{
    let text = rest_of_items(elements, i, level) + seq![close];
    assert(s[pos + n + 0] == text[0]);
    if i == elements.len() {
        assert(elements.take(i) =~= elements);
        lemma_items_end(s, pos, depth, n, close, level == 5, elements);
    } else {
        let next = printed(elements[i], level);
        let rest = rest_of_items(elements, i + 1, level);
        assert(printed_items(elements, i, level) =~= next + rest);
        assert(text =~= seq![','] + (next + (rest + seq![close])));
        lemma_stands_apart(s, pos + n, seq![','], next + (rest + seq![close]));
        lemma_stands_apart(s, pos + n + 1, next, rest + seq![close]);
        lemma_first_char(elements[i], level, depth);
        assert(s[pos + n + 1 + next.len() + 0] == (rest + seq![close])[0]);
        lemma_reads_back(elements[i], level, s, pos + n + 1, depth);
        lemma_items_go_on(s, pos, depth, n, close, level, elements.take(i), elements[i], next.len());
        assert(elements.take(i).push(elements[i]) =~= elements.take(i + 1));
        lemma_items_rest_read_back(elements, i + 1, level, s, pos, depth, close, n + 1 + next.len());
    }
}

/// Writing and reading: the text of a tree that fits is an expression, and
/// the expression is the tree. The trees that fit include all that
/// [`parse`](crate::parsers::parse) returns, so that the text of what was
/// read from a text reads as the same tree, and evaluates as it does.
pub proof fn law_printed_text_reads_back(e: ExpressionView)
    requires
        fits(e, 5, 0),
    ensures
        expression(printed(e, 5)) == Ok::<ExpressionView, Failure>(e),
{
    let text = printed(e, 5);
    lemma_reads_back(e, 5, text, 0, 0);
    lemma_no_spaces(text, text.len() as int);
}

// ---------------------------------------------------------------------------
// What is read fits
// ---------------------------------------------------------------------------

/// The digits in a row from a place on are digits, and end inside the text.
proof fn lemma_digit_count_digits(s: Seq<char>, pos: int)
    requires
        0 <= pos,
    ensures
        pos + digit_count(s, pos) <= s.len() || digit_count(s, pos) == 0,
        forall|i: int| pos <= i < pos + digit_count(s, pos) ==> is_digit(#[trigger] s[i]),
        !has_digit(s, pos + digit_count(s, pos)),
    decreases s.len() - pos,
{
    if has_digit(s, pos) {
        lemma_digit_count_digits(s, pos + 1);
    }
}

/// A number that is read is an integer that is not negative, or a
/// floating-point literal.
proof fn lemma_number_fits(s: Seq<char>, at: int)
    requires
        has_digit(s, at),
        number(s, at) is Ok,
    ensures
        literal_fits(number(s, at)->Ok_0.0),
        !(number(s, at)->Ok_0.0 is List),
{
    let n = digit_count(s, at);
    lemma_digit_count_digits(s, at);
    if has_char(s, at + n, '.') && has_digit(s, at + n + 1) {
        let m = digit_count(s, at + n + 1);
        lemma_digit_count_digits(s, at + n + 1);
        let end = at + n + 1 + m;
        lemma_slice_digit_count(s, at, end, 0);
        lemma_slice_digit_count(s, at, end, n as int + 1);
        assert(s.subrange(at, end)[n as int] == s[at + n]);
    } else {
        lemma_decimal_grows(s, at, 0, n);
    }
}

/// A literal that is no list and is read fits.
proof fn lemma_literal_fits(s: Seq<char>, at: int)
    requires
        scalar_literal(s, at) is Ok,
    ensures
        literal_fits(scalar_literal(s, at)->Ok_0.0),
        !(scalar_literal(s, at)->Ok_0.0 is List),
{
    if has_digit(s, at) {
        lemma_number_fits(s, at);
    }
}

/// What a rule reads fits at the level of the rule.
pub proof fn lemma_rule_fits(level: nat, s: Seq<char>, pos: int, depth: nat)
    requires
        level <= 5,
        0 <= pos,
        rule(level, s, pos, depth) is Ok,
    ensures
        fits(rule(level, s, pos, depth)->Ok_0.0, level, depth),
    decreases remaining(s, pos), 2 * level + 2,
{
    if level == 0 {
        lemma_primary(s, pos, depth);
        let k = spaces(s, pos);
        let at = pos + k;
        if has_char(s, at, '(') {
            lemma_rule_fits(5, s, at + 1, depth + 1);
            lemma_fits_in_brackets(relation(s, at + 1, depth + 1)->Ok_0.0, depth);
        } else if has_char(s, at, '[') {
            lemma_items_fit(4, s, at + 1, depth + 1, ']');
        } else {
            lemma_literal_fits(s, at);
        }
    } else if level == 1 {
        lemma_member(s, pos, depth);
        lemma_rule_fits(0, s, pos, depth);
        let first = primary(s, pos, depth)->Ok_0;
        lemma_fits_looser(first.0, 0, 1, depth);
        lemma_rest_fits(s, pos, depth, first.1, first.0);
    } else if level == 2 {
        lemma_unary(s, pos, depth);
        let k = spaces(s, pos);
        let at = pos + k;
        if has_char(s, at, '-') || has_char(s, at, '!') {
            lemma_rule_fits(2, s, at + 1, depth + 1);
        } else {
            lemma_rule_fits(1, s, pos, depth);
            lemma_fits_looser(member(s, pos, depth)->Ok_0.0, 1, 2, depth);
        }
    } else if level == 3 {
        lemma_multiplication(s, pos, depth);
        lemma_rule_fits(2, s, pos, depth);
        let left = unary(s, pos, depth)->Ok_0;
        let at = pos + left.1 + spaces(s, pos + left.1);
        if has_char(s, at, '*') || has_char(s, at, '/') || has_char(s, at, '%') {
            lemma_rule_fits(3, s, at + 1, depth + 1);
        } else {
            lemma_fits_looser(left.0, 2, 3, depth);
        }
    } else if level == 4 {
        lemma_addition(s, pos, depth);
        lemma_rule_fits(3, s, pos, depth);
        let left = multiplication(s, pos, depth)->Ok_0;
        let at = pos + left.1 + spaces(s, pos + left.1);
        if has_char(s, at, '+') || has_char(s, at, '-') {
            lemma_rule_fits(4, s, at + 1, depth + 1);
        } else {
            lemma_fits_looser(left.0, 3, 4, depth);
        }
    } else {
        lemma_relation(s, pos, depth);
        lemma_rule_fits(4, s, pos, depth);
        let left = addition(s, pos, depth)->Ok_0;
        let k = spaces(s, pos + left.1);
        match crate::grammar::comparison_at(s, pos + left.1 + k) {
            None => {
                lemma_fits_looser(left.0, 4, 5, depth);
            },
            Some((op, width)) => {
                lemma_rule_fits(4, s, pos + left.1 + k + width, depth);
            },
        }
    }
}

/// What the rest of a member expression comes to fits, where what was read
/// before fits.
pub proof fn lemma_rest_fits(s: Seq<char>, pos: int, depth: nat, n: nat, left: ExpressionView)
    requires
        0 <= pos,
        fits(left, 1, depth),
        member_rest(s, pos, depth, n, left) is Ok,
    ensures
        fits(member_rest(s, pos, depth, n, left)->Ok_0.0, 1, depth),
    decreases remaining(s, pos + n), 3nat,
{
    let k = spaces(s, pos + n);
    let at = pos + n + k;
    lemma_member_rest(s, pos, depth, n, left);
    if has_char(s, at, '.') {
        let k2 = spaces(s, at + 1);
        let start = at + 1 + k2;
        let length = name_length(s, start);
        let k3 = spaces(s, start + length);
        let open = start + length + k3;
        let name = method_named(s.subrange(start, start + length))->Some_0;
        lemma_items_fit(5, s, open + 1, depth + 1, ')');
        let args = items(s, open + 1, depth + 1, ')', true)->Ok_0;
        let call = ExpressionView::Method(Box::new(left), name, args.0);
        lemma_rest_fits(s, pos, depth, n + k + 1 + k2 + length + k3 + 1 + args.1, call);
    }
}

/// The items that are read fit.
pub proof fn lemma_items_fit(level: nat, s: Seq<char>, pos: int, depth: nat, close: char)
    requires
        level == 4 || level == 5,
        0 <= pos,
        items(s, pos, depth, close, level == 5) is Ok,
    ensures
        all_fit(items(s, pos, depth, close, level == 5)->Ok_0.0, 0, level, depth),
    decreases remaining(s, pos), 2 * level + 4,
{
    lemma_items(s, pos, depth, close, level == 5);
    let k = spaces(s, pos);
    if !has_char(s, pos + k, close) {
        lemma_item(s, pos, depth, level == 5);
        lemma_rule_fits(level, s, pos, depth);
        let first = rule(level, s, pos, depth)->Ok_0;
        assert(all_fit(seq![first.0], 1, level, depth));
        lemma_items_rest_fit(level, s, pos, depth, first.1, close, seq![first.0]);
    }
}

/// The items that the rest of the items comes to fit, where those that were
/// read before fit.
pub proof fn lemma_items_rest_fit(
    level: nat,
    s: Seq<char>,
    pos: int,
    depth: nat,
    n: nat,
    close: char,
    found: Seq<ExpressionView>,
)
    requires
        level == 4 || level == 5,
        0 <= pos,
        all_fit(found, 0, level, depth),
        items_rest(s, pos, depth, n, close, level == 5, found) is Ok,
    ensures
        all_fit(
            items_rest(s, pos, depth, n, close, level == 5, found)->Ok_0.0,
            0,
            level,
            depth,
        ),
    decreases remaining(s, pos + n), 2 * level + 3,
{
    lemma_items_rest(s, pos, depth, n, close, level == 5, found);
    let k = spaces(s, pos + n);
    let at = pos + n + k;
    if !has_char(s, at, close) && has_char(s, at, ',') {
        lemma_item(s, at + 1, depth, level == 5);
        lemma_rule_fits(level, s, at + 1, depth);
        let next = rule(level, s, at + 1, depth)->Ok_0;
        lemma_all_fit_with_one_more(found, next.0, 0, level, depth);
        lemma_items_rest_fit(level, s, pos, depth, n + k + 1 + next.1, close, found.push(next.0));
    }
}

/// The tree of an expression fits: it is at most [`MAX_DEPTH`] high, its
/// integers are not negative, and its floating-point numbers are literals.
pub proof fn law_expressions_fit(s: Seq<char>)
    requires
        expression(s) is Ok,
    ensures
        fits(expression(s)->Ok_0, 5, 0),
        height(expression(s)->Ok_0) <= MAX_DEPTH,
{
    lemma_rule_fits(5, s, 0, 0);
}

/// Reading, writing and reading again: the text of the tree of an expression
/// is an expression of the same tree. A text and the text of its tree so
/// evaluate to the same.
pub proof fn law_text_reads_back(s: Seq<char>)
    requires
        expression(s) is Ok,
    ensures
        expression(printed(expression(s)->Ok_0, 5)) == expression(s),
{
    lemma_rule_fits(5, s, 0, 0);
    law_printed_text_reads_back(expression(s)->Ok_0);
}

} // verus!
