//! The readers of the tokens: white space, numbers, names, strings and
//! bytes.
use crate::grammar::{
    bytes_of, comparison_at, decimal_value, digit_count, escape, has_hex, has_octal, has_word,
    hex_value, is_digit, is_name_part, is_space, method_named, name_length, name_parts, number,
    octal_at, quoted, scalar_literal, spaces, text_of, Comparison, Failure, ParseError,
    ParseErrorKind, Parsed, Unit,
};
use crate::model::{Float, Literal, LiteralView, MethodName};
use crate::text::push_char;
use vstd::prelude::*;
use vstd::string::StrSliceExecFns;
use vstd::utf8::is_scalar;

verus! {

/// Whether a character is white space.
pub fn space(c: char) -> (r: bool)
    ensures
        r == is_space(c),
{
    c == ' ' || c == '\t' || c == '\n' || c == '\r' || c == '\x0c'
}

/// Whether a character is a decimal digit.
pub fn digit(c: char) -> (r: bool)
    ensures
        r == is_digit(c),
{
    c >= '0' && c <= '9'
}

/// The index of the first character from `pos` on that is no white space.
pub fn skip_spaces(s: &Vec<char>, pos: usize) -> (at: usize)
    requires
        pos <= s.len(),
    ensures
        pos <= at <= s.len(),
        at == pos + spaces(s@, pos as int),
{
    let mut at: usize = pos;
    while at < s.len() && space(s[at])
        invariant
            pos <= at <= s.len(),
            spaces(s@, pos as int) == (at - pos) + spaces(s@, at as int),
        decreases s.len() - at,
    {
        at += 1;
    }
    at
}

/// The index of the first character from `pos` on that is no decimal digit.
pub fn skip_digits(s: &Vec<char>, pos: usize) -> (at: usize)
    requires
        pos <= s.len(),
    ensures
        pos <= at <= s.len(),
        at == pos + digit_count(s@, pos as int),
        forall|i: int| pos <= i < at ==> is_digit(#[trigger] s@[i]),
{
    let mut at: usize = pos;
    while at < s.len() && digit(s[at])
        invariant
            pos <= at <= s.len(),
            digit_count(s@, pos as int) == (at - pos) + digit_count(s@, at as int),
            forall|i: int| pos <= i < at ==> is_digit(#[trigger] s@[i]),
        decreases s.len() - at,
    {
        at += 1;
    }
    at
}

/// Whether a character can stand inside a name.
pub fn name_part(c: char) -> (r: bool)
    ensures
        r == is_name_part(c),
{
    (c >= 'a' && c <= 'z') || (c >= 'A' && c <= 'Z') || c == '_' || (c >= '0' && c <= '9')
}

/// The index after the name that begins at `at`; `at` itself where none does.
pub fn skip_name(s: &Vec<char>, at: usize) -> (end: usize)
    requires
        at <= s.len(),
    ensures
        at <= end <= s.len(),
        end == at + name_length(s@, at as int),
{
    if at < s.len() && name_part(s[at]) && !digit(s[at]) {
        let mut end: usize = at + 1;
        while end < s.len() && name_part(s[end])
            invariant
                at < end <= s.len(),
                name_parts(s@, at + 1) == (end - at - 1) + name_parts(s@, end as int),
            decreases s.len() - end,
        {
            end += 1;
        }
        end
    } else {
        at
    }
}

/// The characters of the text from `from` up to `to`, as a string.
pub fn slice_string(s: &Vec<char>, from: usize, to: usize) -> (r: String)
    requires
        from <= to <= s.len(),
    ensures
        r@ == s@.subrange(from as int, to as int),
{
    let mut r = String::new();
    let mut i: usize = from;
    while i < to
        invariant
            from <= i <= to <= s.len(),
            r@ == s@.subrange(from as int, i as int),
        decreases to - i,
    {
        push_char(&mut r, s[i]);
        i += 1;
    }
    r
}

/// The method that the name from `from` up to `to` stands for.
pub fn method_of(s: &Vec<char>, from: usize, to: usize) -> (r: Option<MethodName>)
    requires
        from <= to <= s.len(),
    ensures
        r == method_named(s@.subrange(from as int, to as int)),
{
    let ghost name = s@.subrange(from as int, to as int);
    let n: usize = to - from;
    if n == 3 && s[from] == 'l' && s[from + 1] == 'e' && s[from + 2] == 'n' {
        assert(name == seq!['l', 'e', 'n']);
        Some(MethodName::Len)
    } else if n == 8 && s[from] == 'c' && s[from + 1] == 'o' && s[from + 2] == 'n' && s[from + 3]
        == 't' && s[from + 4] == 'a' && s[from + 5] == 'i' && s[from + 6] == 'n' && s[from + 7]
        == 's' {
        assert(name == seq!['c', 'o', 'n', 't', 'a', 'i', 'n', 's']);
        Some(MethodName::Contains)
    } else if n == 3 && s[from] == 'p' && s[from + 1] == 'o' && s[from + 2] == 'w' {
        assert(name == seq!['p', 'o', 'w']);
        Some(MethodName::Pow)
    } else {
        assert(name.len() == n);
        None
    }
}

/// The comparison operator at `at`, and the index after it.
pub fn comparison(s: &Vec<char>, at: usize) -> (r: Option<(Comparison, usize)>)
    requires
        at <= s.len(),
    ensures
        match r {
            Some((op, end)) => at < end <= s.len() && comparison_at(s@, at as int) == Some(
                (op, (end - at) as nat),
            ),
            None => comparison_at(s@, at as int).is_none(),
        },
{
    if at >= s.len() {
        return None;
    }
    let c: char = s[at];
    let assigned: bool = at + 1 < s.len() && s[at + 1] == '=';
    if c == '=' && assigned {
        Some((Comparison::Eq, at + 2))
    } else if c == '!' && assigned {
        Some((Comparison::Neq, at + 2))
    } else if c == '<' && assigned {
        Some((Comparison::Lte, at + 2))
    } else if c == '<' {
        Some((Comparison::Lt, at + 1))
    } else if c == '>' && assigned {
        Some((Comparison::Gte, at + 2))
    } else if c == '>' {
        Some((Comparison::Gt, at + 1))
    } else {
        None
    }
}

/// The value of digits grows with their number.
pub proof fn lemma_decimal_grows(s: Seq<char>, from: int, j: nat, n: nat)
    requires
        0 <= from,
        from + n <= s.len(),
        forall|i: int| from <= i < from + n ==> is_digit(#[trigger] s[i]),
        j <= n,
    ensures
        0 <= decimal_value(s, from, j) <= decimal_value(s, from, n),
    decreases n,
{
    if j < n {
        lemma_decimal_grows(s, from, j, (n - 1) as nat);
    } else if n > 0 {
        lemma_decimal_grows(s, from, (j - 1) as nat, (n - 1) as nat);
    }
}

/// The value of the digits from `from` up to `to`, where it is at most the
/// largest 64-bit signed integer.
pub fn integer_value(s: &Vec<char>, from: usize, to: usize) -> (r: Option<i64>)
    requires
        from <= to <= s.len(),
        forall|i: int| from <= i < to ==> is_digit(#[trigger] s@[i]),
    ensures
        r == (if decimal_value(s@, from as int, (to - from) as nat) <= i64::MAX {
            Some(decimal_value(s@, from as int, (to - from) as nat) as i64)
        } else {
            None
        }),
{
    let mut value: i64 = 0;
    let mut i: usize = from;
    while i < to
        invariant
            from <= i <= to <= s.len(),
            forall|i: int| from <= i < to ==> is_digit(#[trigger] s@[i]),
            0 <= value,
            value == decimal_value(s@, from as int, (i - from) as nat),
        decreases to - i,
    {
        let d: i64 = (s[i] as u32 - '0' as u32) as i64;
        proof {
            lemma_decimal_grows(s@, from as int, (i + 1 - from) as nat, (to - from) as nat);
        }
        match value.checked_mul(10) {
            Some(tens) => match tens.checked_add(d) {
                Some(next) => {
                    value = next;
                },
                None => {
                    return None;
                },
            },
            None => {
                return None;
            },
        }
        i += 1;
    }
    Some(value)
}

/// The digits in a row inside a part of a text count as in the text, where
/// the row ends inside the part.
pub proof fn lemma_slice_digit_count(s: Seq<char>, at: int, end: int, j: int)
    requires
        0 <= at,
        0 <= j,
        at + j + digit_count(s, at + j) <= end <= s.len(),
    ensures
        digit_count(s.subrange(at, end), j) == digit_count(s, at + j),
    decreases end - at - j,
{
    if at + j < end && is_digit(s[at + j]) {
        lemma_slice_digit_count(s, at, end, j + 1);
    }
}

/// Reads the number that begins at the digit at `at`.
pub fn parse_number(s: &Vec<char>, at: usize) -> (r: Result<(Literal, usize), ParseError>)
    requires
        at < s.len(),
        is_digit(s@[at as int]),
    ensures
        match r {
            Ok((value, end)) => at < end <= s.len() && number(s@, at as int) == Ok::<
                (LiteralView, nat),
                Failure,
            >((value@, (end - at) as nat)),
            Err(error) => number(s@, at as int) == Err::<(LiteralView, nat), Failure>(error@),
        },
{
    let whole: usize = skip_digits(s, at);
    if whole < s.len() && s.len() - whole >= 2 && s[whole] == '.' && digit(s[whole + 1]) {
        let end: usize = skip_digits(s, whole + 1);
        let text = slice_string(s, at, end);
        Ok((Literal::F64(Float::Decimal(text)), end))
    } else {
        match integer_value(s, at, whole) {
            Some(value) => Ok((Literal::I64(value), whole)),
            None => Err(ParseError { kind: ParseErrorKind::IntegerTooLarge, position: at }),
        }
    }
}

/// The character with the given code point.
///
/// Trusted: this is `char::from_u32` of the standard library, which gives the
/// character for every number that is a Unicode scalar value (at most
/// 0x10FFFF and no surrogate) and nothing for any other.
#[verifier::external_body]
pub(crate) fn char_from_code(code: u32) -> (r: Option<char>)
    ensures
        r == (if is_scalar(code) {
            Some(code as char)
        } else {
            None
        }),
{
    char::from_u32(code)
}

/// The value of the hexadecimal digit at `at`.
pub fn hex_digit_at(s: &Vec<char>, at: usize) -> (r: Option<u32>)
    ensures
        r == (if has_hex(s@, at as int) {
            Some(hex_value(s@[at as int]) as u32)
        } else {
            None
        }),
{
    if at >= s.len() {
        return None;
    }
    let c: char = s[at];
    if c >= '0' && c <= '9' {
        Some(c as u32 - '0' as u32)
    } else if c >= 'a' && c <= 'f' {
        Some(c as u32 - 'a' as u32 + 10)
    } else if c >= 'A' && c <= 'F' {
        Some(c as u32 - 'A' as u32 + 10)
    } else {
        None
    }
}

/// The value of the octal digit at `at`.
pub fn octal_digit_at(s: &Vec<char>, at: usize) -> (r: Option<u32>)
    ensures
        r == (if has_octal(s@, at as int) {
            Some(octal_at(s@, at as int) as u32)
        } else {
            None
        }),
{
    if at < s.len() && s[at] >= '0' && s[at] <= '7' {
        Some(s[at] as u32 - '0' as u32)
    } else {
        None
    }
}

/// A rejection of an escape sequence.
fn bad_escape(pos: usize) -> (r: Result<(Unit, usize), ParseError>)
    ensures
        r == Err::<(Unit, usize), ParseError>(
            ParseError { kind: ParseErrorKind::InvalidEscape, position: pos },
        ),
{
    Err(ParseError { kind: ParseErrorKind::InvalidEscape, position: pos })
}

/// Reads the escape sequence that begins with the backslash at `pos`.
pub fn parse_escape(s: &Vec<char>, pos: usize) -> (r: Result<(Unit, usize), ParseError>)
    requires
        pos < s.len(),
    ensures
        match r {
            Ok((unit, end)) => pos < end <= s.len() && escape(s@, pos as int) == Ok::<
                (Unit, nat),
                Failure,
            >((unit, (end - pos) as nat)),
            Err(error) => escape(s@, pos as int) == Err::<(Unit, nat), Failure>(error@),
        },
{
    if s.len() - pos <= 1 {
        return bad_escape(pos);
    }
    let c: char = s[pos + 1];
    if c == 't' {
        Ok((Unit::Byte(9), pos + 2))
    } else if c == 'n' {
        Ok((Unit::Byte(10), pos + 2))
    } else if c == '"' {
        Ok((Unit::Byte(34), pos + 2))
    } else if c == 'x' {
        if s.len() - pos <= 3 {
            return bad_escape(pos);
        }
        match (hex_digit_at(s, pos + 2), hex_digit_at(s, pos + 3)) {
            (Some(high), Some(low)) => Ok((Unit::Byte((high * 16 + low) as u8), pos + 4)),
            _ => bad_escape(pos),
        }
    } else if c == 'u' {
        if s.len() - pos <= 5 {
            return bad_escape(pos);
        }
        match (
            hex_digit_at(s, pos + 2),
            hex_digit_at(s, pos + 3),
            hex_digit_at(s, pos + 4),
            hex_digit_at(s, pos + 5),
        ) {
            (Some(a), Some(b), Some(c), Some(d)) => {
                match char_from_code(a * 4096 + b * 256 + c * 16 + d) {
                    Some(ch) => Ok((Unit::Char(ch), pos + 6)),
                    None => bad_escape(pos),
                }
            },
            _ => bad_escape(pos),
        }
    } else {
        match octal_digit_at(s, pos + 1) {
            None => bad_escape(pos),
            Some(first) => match octal_digit_at(s, pos + 2) {
                None => Ok((Unit::Byte(first as u8), pos + 2)),
                Some(second) => match octal_digit_at(s, pos + 3) {
                    None => Ok((Unit::Byte((first * 8 + second) as u8), pos + 3)),
                    Some(third) => if first <= 3 {
                        Ok((Unit::Byte((first * 64 + second * 8 + third) as u8), pos + 4))
                    } else {
                        Ok((Unit::Byte(first as u8), pos + 2))
                    },
                },
            },
        }
    }
}

/// A literal's units so far, before what the rest of it gives.
pub open spec fn prefixed(found: Seq<Unit>, taken: nat, rest: Parsed<Seq<Unit>>) -> Parsed<
    Seq<Unit>,
> {
    match rest {
        Err(failure) => Err(failure),
        Ok((units, more)) => Ok((found + units, taken + more)),
    }
}

/// Reads the units of a literal from `pos` up to the closing quote.
pub fn parse_quoted(s: &Vec<char>, pos: usize, quote: char) -> (r: Result<
    (Vec<Unit>, usize),
    ParseError,
>)
    requires
        pos <= s.len(),
    ensures
        match r {
            Ok((units, end)) => pos < end <= s.len() && quoted(s@, pos as int, quote) == Ok::<
                (Seq<Unit>, nat),
                Failure,
            >((units@, (end - pos) as nat)),
            Err(error) => quoted(s@, pos as int, quote) == Err::<(Seq<Unit>, nat), Failure>(
                error@,
            ),
        },
{
    let mut units: Vec<Unit> = Vec::new();
    let mut at: usize = pos;
    loop
        invariant
            pos <= at <= s.len(),
            quoted(s@, pos as int, quote) == prefixed(
                units@,
                (at - pos) as nat,
                quoted(s@, at as int, quote),
            ),
        decreases s.len() - at,
    {
        if at >= s.len() {
            return Err(
                ParseError { kind: ParseErrorKind::UnexpectedInput, position: s.len() },
            );
        }
        let c: char = s[at];
        if c == quote {
            return Ok((units, at + 1));
        }
        let ghost before = units@;
        if c == '\\' {
            match parse_escape(s, at) {
                Ok((unit, end)) => {
                    units.push(unit);
                    at = end;
                },
                Err(error) => {
                    return Err(error);
                },
            }
        } else {
            units.push(Unit::Char(c));
            at = at + 1;
        }
        proof {
            let unit = units@.last();
            match quoted(s@, at as int, quote) {
                Ok((rest, more)) => {
                    assert(before + (seq![unit] + rest) == units@ + rest);
                },
                Err(_) => {},
            }
        }
    }
}

/// The text of a string literal with the given units.
pub fn text_from(units: &Vec<Unit>) -> (r: String)
    ensures
        r@ == text_of(units@),
{
    let mut r = String::new();
    let mut i: usize = 0;
    while i < units.len()
        invariant
            i <= units.len(),
            r@ == text_of(units@.take(i as int)),
        decreases units.len() - i,
    {
        let c: char = match units[i] {
            Unit::Byte(b) => b as char,
            Unit::Char(c) => c,
        };
        push_char(&mut r, c);
        i += 1;
    }
    r
}

/// The bytes of a bytes literal with the given units.
pub fn bytes_from(units: &Vec<Unit>) -> (r: Vec<u8>)
    ensures
        r@ == bytes_of(units@),
{
    let mut r: Vec<u8> = Vec::new();
    let mut i: usize = 0;
    while i < units.len()
        invariant
            i <= units.len(),
            r@ == bytes_of(units@.take(i as int)),
        decreases units.len() - i,
    {
        let ghost before = r@;
        match units[i] {
            Unit::Byte(b) => {
                r.push(b);
            },
            Unit::Char(c) => {
                let mut one = String::new();
                push_char(&mut one, c);
                let encoded = one.as_str().as_bytes_vec();
                let mut j: usize = 0;
                while j < encoded.len()
                    invariant
                        j <= encoded.len(),
                        r@ == before + encoded@.take(j as int),
                    decreases encoded.len() - j,
                {
                    r.push(encoded[j]);
                    j += 1;
                }
            },
        }
        assert(units@.take(i + 1).drop_last() == units@.take(i as int));
        i += 1;
    }
    assert(units@.take(units.len() as int) == units@);
    r
}

/// Reads the literal that begins at `at`, other than a list.
pub fn parse_scalar_literal(s: &Vec<char>, at: usize) -> (r: Result<(Literal, usize), ParseError>)
    requires
        at <= s.len(),
    ensures
        match r {
            Ok((value, end)) => at < end <= s.len() && scalar_literal(s@, at as int) == Ok::<
                (LiteralView, nat),
                Failure,
            >((value@, (end - at) as nat)),
            Err(error) => scalar_literal(s@, at as int) == Err::<(LiteralView, nat), Failure>(
                error@,
            ),
        },
{
    let unexpected = Err(ParseError { kind: ParseErrorKind::UnexpectedInput, position: at });
    if at >= s.len() {
        return unexpected;
    }
    let c: char = s[at];
    let ghost yes = seq!['t', 'r', 'u', 'e'];
    let ghost no = seq!['f', 'a', 'l', 's', 'e'];
    if digit(c) {
        parse_number(s, at)
    } else if c == '"' || c == '\'' {
        match parse_quoted(s, at + 1, c) {
            Ok((units, end)) => Ok((Literal::String(text_from(&units)), end)),
            Err(error) => Err(error),
        }
    } else if c == 'b' && s.len() - at >= 2 && (s[at + 1] == '"' || s[at + 1] == '\'') {
        match parse_quoted(s, at + 2, s[at + 1]) {
            Ok((units, end)) => Ok((Literal::Bytes(bytes_from(&units)), end)),
            Err(error) => Err(error),
        }
    } else if c == 't' {
        if s.len() - at >= 4 && s[at + 1] == 'r' && s[at + 2] == 'u' && s[at + 3] == 'e' {
            assert(s@.subrange(at as int, at + 4) == yes);
            Ok((Literal::Bool(true), at + 4))
        } else {
            unexpected
        }
    } else if c == 'f' {
        if s.len() - at >= 5 && s[at + 1] == 'a' && s[at + 2] == 'l' && s[at + 3] == 's' && s[at
            + 4] == 'e' {
            assert(s@.subrange(at as int, at + 5) == no);
            Ok((Literal::Bool(false), at + 5))
        } else {
            unexpected
        }
    } else {
        unexpected
    }
}

} // verus!
