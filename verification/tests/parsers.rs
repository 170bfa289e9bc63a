use cel_rs::grammar::{ParseError, ParseErrorKind, MAX_DEPTH};
use cel_rs::model::{Expression, Float, Literal, MethodName};
use cel_rs::parsers::parse;

fn assert_valid(input: &str) {
    parse(input).expect("failed to parse");
}

fn assert_invalid(input: &str) {
    let parsed = parse(input);
    assert!(parsed.is_err(), "{} was accepted as {:?}", input, parsed);
}

fn string_literal(s: &str) -> Expression {
    Expression::Lit(Literal::String(String::from(s)))
}

fn bytes_literal(b: &[u8]) -> Expression {
    Expression::Lit(Literal::Bytes(b.to_vec()))
}

fn num(x: i64) -> Expression {
    Expression::Lit(Literal::I64(x))
}

fn rejected(kind: ParseErrorKind, position: usize) -> Result<Expression, ParseError> {
    Err(ParseError { kind, position })
}

#[test]
fn cel_valid() {
    assert_valid("22 * (4 + 15)");
    assert_valid("22 * -4");
    assert_valid("!false");
}

#[test]
fn valid_floats() {
    assert_valid("3.1415926");
    assert_invalid(".1415926");
    assert_invalid("3.");
}

#[test]
fn cel_smoke() {
    let input = "22 * (4 + 15)";
    assert_eq!(
        parse(input),
        Ok(Expression::Mul(
            Box::new(Expression::Lit(Literal::I64(22))),
            Box::new(Expression::Add(
                Box::new(Expression::Lit(Literal::I64(4))),
                Box::new(Expression::Lit(Literal::I64(15))),
            ))
        ))
    );
}

#[test]
fn cel_list() {
    let input = "[0, '1', 2 + '3']";
    assert_eq!(
        parse(input),
        Ok(Expression::Lit(Literal::List(vec![
            Expression::Lit(Literal::I64(0)),
            Expression::Lit(Literal::String(String::from("1"))),
            Expression::Add(
                Box::new(Expression::Lit(Literal::I64(2))),
                Box::new(Expression::Lit(Literal::String(String::from("3")))),
            )
        ])))
    );
}

#[test]
fn cel_string() {
    let input = r#""asdf""#;
    assert_eq!(
        parse(input),
        Ok(Expression::Lit(Literal::String(String::from("asdf"))))
    );
}

#[test]
fn valid_string_literals() {
    assert_valid(r#" "asdf" "#);
    assert_valid(r#" 'asdf' "#);
    assert_valid(r#" 'Â¢' "#);
}

#[test]
fn cel_escaped_quote_string() {
    let input = r#""as\"df""#;
    assert_eq!(
        parse(input),
        Ok(Expression::Lit(Literal::String(String::from("as\"df"))))
    );
}

#[test]
fn invalid_octal_escapes() {
    assert_invalid(r#" "\8" "#);
}

#[test]
fn valid_octal_escapes() {
    assert_eq!(parse(r#" "\000" "#).unwrap(), string_literal("\u{0000}"));
    assert_eq!(parse(r#" "\007" "#).unwrap(), string_literal("\u{0007}"));
    assert_eq!(parse(r#" "\377" "#).unwrap(), string_literal("\u{00FF}"));
}

#[test]
fn valid_hex_escapes() {
    assert_eq!(parse(r#" "\x00" "#).unwrap(), string_literal("\u{0000}"));
    assert_eq!(parse(r#" "\xFF" "#).unwrap(), string_literal("\u{00FF}"));
}

#[test]
fn valid_unicode_escapes() {
    assert_eq!(parse(r#" "\u0000" "#).unwrap(), string_literal("\u{0000}"));
    assert_eq!(parse(r#" "\u00FF" "#).unwrap(), string_literal("\u{00FF}"));
    assert_eq!(parse(r#" "\uFF00" "#).unwrap(), string_literal("\u{FF00}"));
    assert_eq!(parse(r#" "\uFFFF" "#).unwrap(), string_literal("\u{FFFF}"));
}

#[test]
fn valid_bytes() {
    assert_eq!(parse(r#" b"asdf" "#).unwrap(), bytes_literal("asdf".as_bytes()));
}

#[test]
fn method_call() {
    assert_valid(r#" [1, 2, 3].len() "#);
    assert_valid(r#" 42.pow(42) "#);
    assert_valid(r#" ([1] + [2]).len() "#);
    assert_valid(r#" ([1] + [2]).len().pow(2) "#);
}

#[test]
fn short_octal_escapes_are_single_characters() {
    assert_eq!(parse(r#" "\0" "#).unwrap(), string_literal("\u{0000}"));
    assert_eq!(parse(r#" "\7" "#).unwrap(), string_literal("\u{0007}"));
    assert_eq!(parse(r#" "\07" "#).unwrap(), string_literal("\u{0007}"));
    assert_eq!(parse(r#" "\77" "#).unwrap(), string_literal("\u{003F}"));
    assert_eq!(parse(r#" "\377" "#).unwrap(), string_literal("\u{00FF}"));
}

#[test]
fn octal_escape_above_a_byte_is_one_digit_and_text() {
    assert_eq!(parse(r#" "\400" "#).unwrap(), string_literal("\u{0004}00"));
    assert_eq!(parse(r#" "\378" "#).unwrap(), string_literal("\u{001F}8"));
    assert_eq!(parse(r#" "\777" "#).unwrap(), string_literal("\u{0007}77"));
    assert_eq!(parse(r#" "\47" "#).unwrap(), string_literal("'"));
}

#[test]
fn escapes_in_bytes_are_bytes() {
    assert_eq!(parse(r#" b"\xFF" "#).unwrap(), bytes_literal(&[0xFF]));
    assert_eq!(parse(r#" b"\377\n" "#).unwrap(), bytes_literal(&[0xFF, 0x0A]));
    assert_eq!(parse(" b\"\u{00A2}\" ").unwrap(), bytes_literal(&[0xC2, 0xA2]));
    assert_eq!(parse(r#" b"¢" "#).unwrap(), bytes_literal(&[0xC2, 0xA2]));
    assert_eq!(parse(" b'\u{1F600}' ").unwrap(), bytes_literal(&[0xF0, 0x9F, 0x98, 0x80]));
    assert_eq!(parse(r#" "\xFF" "#).unwrap(), string_literal("\u{00FF}"));
}

#[test]
fn invalid_escapes() {
    assert_eq!(parse(r#""\q""#), rejected(ParseErrorKind::InvalidEscape, 1));
    assert_eq!(parse(r#""ab\xF""#), rejected(ParseErrorKind::InvalidEscape, 3));
    assert_eq!(parse(r#""\u12""#), rejected(ParseErrorKind::InvalidEscape, 1));
    assert_eq!(parse(r#""\uD800""#), rejected(ParseErrorKind::InvalidEscape, 1));
    assert_eq!(parse(r#""\\""#), rejected(ParseErrorKind::InvalidEscape, 1));
    assert_eq!(parse(r#"'\''"#), rejected(ParseErrorKind::InvalidEscape, 1));
    assert_eq!(parse(r#""\"#), rejected(ParseErrorKind::InvalidEscape, 1));
}

#[test]
fn float_literals_keep_their_text() {
    assert_eq!(
        parse(" 3.1415926 "),
        Ok(Expression::Lit(Literal::F64(Float::Decimal(String::from("3.1415926")))))
    );
    assert_eq!(
        parse("007.50"),
        Ok(Expression::Lit(Literal::F64(Float::Decimal(String::from("007.50")))))
    );
    assert_eq!(parse("3."), rejected(ParseErrorKind::UnexpectedInput, 2));
    assert_eq!(parse(".5"), rejected(ParseErrorKind::UnexpectedInput, 0));
}

#[test]
fn integer_literals() {
    assert_eq!(parse("0"), Ok(num(0)));
    assert_eq!(parse("0042"), Ok(num(42)));
    assert_eq!(parse("9223372036854775807"), Ok(num(i64::MAX)));
    assert_eq!(
        parse("9223372036854775808"),
        rejected(ParseErrorKind::IntegerTooLarge, 0)
    );
    assert_eq!(
        parse(" 1 + 99999999999999999999"),
        rejected(ParseErrorKind::IntegerTooLarge, 5)
    );
    assert_eq!(
        parse("-9223372036854775807"),
        Ok(Expression::Neg(Box::new(num(i64::MAX))))
    );
}

#[test]
fn operators_nest_to_the_right() {
    assert_eq!(
        parse("1 - 2 - 3"),
        Ok(Expression::Sub(
            Box::new(num(1)),
            Box::new(Expression::Sub(Box::new(num(2)), Box::new(num(3)))),
        ))
    );
    assert_eq!(
        parse("8 / 4 / 2"),
        Ok(Expression::Div(
            Box::new(num(8)),
            Box::new(Expression::Div(Box::new(num(4)), Box::new(num(2)))),
        ))
    );
    assert_eq!(
        parse("7 % 3"),
        Ok(Expression::Mod(Box::new(num(7)), Box::new(num(3))))
    );
    assert_eq!(
        parse("8 / 4 % 3 * 2"),
        Ok(Expression::Div(
            Box::new(num(8)),
            Box::new(Expression::Mod(
                Box::new(num(4)),
                Box::new(Expression::Mul(Box::new(num(3)), Box::new(num(2)))),
            )),
        ))
    );
    assert_eq!(
        parse("(1 - 2) - 3 * 4 + 5"),
        Ok(Expression::Sub(
            Box::new(Expression::Sub(Box::new(num(1)), Box::new(num(2)))),
            Box::new(Expression::Add(
                Box::new(Expression::Mul(Box::new(num(3)), Box::new(num(4)))),
                Box::new(num(5)),
            )),
        ))
    );
}

#[test]
fn precedence() {
    assert_eq!(
        parse("1 + 2 * 3 <= -4"),
        Ok(Expression::Lte(
            Box::new(Expression::Add(
                Box::new(num(1)),
                Box::new(Expression::Mul(Box::new(num(2)), Box::new(num(3)))),
            )),
            Box::new(Expression::Neg(Box::new(num(4)))),
        ))
    );
    assert_eq!(
        parse("!-!true"),
        Ok(Expression::Not(Box::new(Expression::Neg(Box::new(Expression::Not(Box::new(
            Expression::Lit(Literal::Bool(true))
        )))))))
    );
}

#[test]
fn every_comparison() {
    let pairs: Vec<(&str, fn(Box<Expression>, Box<Expression>) -> Expression)> = vec![
        ("1==2", Expression::Eq),
        ("1!=2", Expression::Neq),
        ("1<2", Expression::Lt),
        ("1<=2", Expression::Lte),
        ("1>=2", Expression::Gte),
        ("1>2", Expression::Gt),
    ];
    for (input, node) in pairs {
        assert_eq!(parse(input), Ok(node(Box::new(num(1)), Box::new(num(2)))));
    }
}

#[test]
fn comparisons_do_not_chain() {
    assert_eq!(parse("1 < 2 < 3"), rejected(ParseErrorKind::UnexpectedInput, 6));
    assert_eq!(parse("1 == 2 == 3"), rejected(ParseErrorKind::UnexpectedInput, 7));
    assert_eq!(
        parse("(1 < 2) == (3 < 4)"),
        Ok(Expression::Eq(
            Box::new(Expression::Lt(Box::new(num(1)), Box::new(num(2)))),
            Box::new(Expression::Lt(Box::new(num(3)), Box::new(num(4)))),
        ))
    );
}

#[test]
fn method_calls_apply_from_left_to_right() {
    assert_eq!(
        parse(" [1] . len ( ) .pow( 2 , 3 ) "),
        Ok(Expression::Method(
            Box::new(Expression::Method(
                Box::new(Expression::Lit(Literal::List(vec![num(1)]))),
                MethodName::Len,
                vec![],
            )),
            MethodName::Pow,
            vec![num(2), num(3)],
        ))
    );
    assert_eq!(
        parse("[].contains(1 < 2)"),
        Ok(Expression::Method(
            Box::new(Expression::Lit(Literal::List(vec![]))),
            MethodName::Contains,
            vec![Expression::Lt(Box::new(num(1)), Box::new(num(2)))],
        ))
    );
}

#[test]
fn unknown_method_is_rejected() {
    assert_eq!(parse("1.size()"), rejected(ParseErrorKind::UnknownMethod, 2));
    assert_eq!(parse("1.lens()"), rejected(ParseErrorKind::UnknownMethod, 2));
    assert_eq!(parse("1.()"), rejected(ParseErrorKind::UnexpectedInput, 2));
    assert_eq!(parse("1.len"), rejected(ParseErrorKind::UnexpectedInput, 5));
}

#[test]
fn list_items_are_additions() {
    assert_eq!(parse("[1 < 2]"), rejected(ParseErrorKind::UnexpectedInput, 3));
    assert_valid("[(1 < 2)]");
    assert_eq!(parse("[1,]"), rejected(ParseErrorKind::UnexpectedInput, 3));
    assert_eq!(parse("[1 2]"), rejected(ParseErrorKind::UnexpectedInput, 3));
    assert_eq!(parse("[1"), rejected(ParseErrorKind::UnexpectedInput, 2));
}

#[test]
fn rejections_name_the_place() {
    assert_eq!(parse(""), rejected(ParseErrorKind::UnexpectedInput, 0));
    assert_eq!(parse("   "), rejected(ParseErrorKind::UnexpectedInput, 3));
    assert_eq!(parse("1 +"), rejected(ParseErrorKind::UnexpectedInput, 3));
    assert_eq!(parse("(1"), rejected(ParseErrorKind::UnexpectedInput, 2));
    assert_eq!(parse("1)"), rejected(ParseErrorKind::UnexpectedInput, 1));
    assert_eq!(parse("\"abc"), rejected(ParseErrorKind::UnexpectedInput, 4));
    assert_eq!(parse("trux"), rejected(ParseErrorKind::UnexpectedInput, 0));
    assert_eq!(parse("é"), rejected(ParseErrorKind::UnexpectedInput, 0));
    assert_eq!(parse("'é' é"), rejected(ParseErrorKind::UnexpectedInput, 4));
}

#[test]
fn white_space_stands_between_tokens() {
    assert_eq!(
        parse("\t1\n+\r2\u{000C}"),
        Ok(Expression::Add(Box::new(num(1)), Box::new(num(2))))
    );
    assert_eq!(parse("1 2"), rejected(ParseErrorKind::UnexpectedInput, 2));
    assert_eq!(parse("= ="), rejected(ParseErrorKind::UnexpectedInput, 0));
    assert_eq!(parse("1 = = 2"), rejected(ParseErrorKind::UnexpectedInput, 2));
    assert_eq!(parse("b 'a'"), rejected(ParseErrorKind::UnexpectedInput, 0));
}

#[test]
fn method_names() {
    assert_eq!(MethodName::from_str("len"), Ok(MethodName::Len));
    assert_eq!(MethodName::from_str("contains"), Ok(MethodName::Contains));
    assert_eq!(MethodName::from_str("pow"), Ok(MethodName::Pow));
    assert_eq!(
        MethodName::from_str("size"),
        Err(String::from("unknown method 'size'"))
    );
    assert_eq!("pow".parse::<MethodName>(), Ok(MethodName::Pow));
}

fn nested(open: &str, inner: &str, close: &str, levels: usize) -> String {
    let mut text = open.repeat(levels);
    text.push_str(inner);
    text.push_str(&close.repeat(levels));
    text
}

#[test]
fn brackets_nest_up_to_the_limit() {
    assert_eq!(MAX_DEPTH, 256);
    assert_eq!(parse(&nested("(", "1", ")", 256)), Ok(num(1)));
    assert_eq!(
        parse(&nested("(", "1", ")", 257)),
        rejected(ParseErrorKind::TooDeep, 256)
    );
    assert_valid(&nested("[", "", "]", 256));
    assert_eq!(
        parse(&nested("[", "", "]", 257)),
        rejected(ParseErrorKind::TooDeep, 256)
    );
    assert_valid(&nested("-", "1", "", 255));
    assert_eq!(
        parse(&nested("!", "true", "", 256)),
        rejected(ParseErrorKind::TooDeep, 0)
    );
    assert_eq!(
        parse(&nested("-", "1", "", 257)),
        rejected(ParseErrorKind::TooDeep, 256)
    );
    assert_valid(&nested("1.pow(", "1", ")", 255));
    assert!(parse(&nested("1.pow(", "1", ")", 257)).is_err());
}

#[test]
fn trees_grow_up_to_the_limit() {
    let mut sum = String::from("1");
    sum.push_str(&"+1".repeat(255));
    assert_valid(&sum);
    sum.push_str("+1");
    assert_eq!(parse(&sum), rejected(ParseErrorKind::TooDeep, 1));
    sum.push_str("+1");
    assert_eq!(parse(&sum), rejected(ParseErrorKind::TooDeep, 513));
    let mut product = String::from("1");
    product.push_str(&" * 2".repeat(256));
    assert_eq!(parse(&product), rejected(ParseErrorKind::TooDeep, 2));
    let mut calls = String::from("1");
    calls.push_str(&".len()".repeat(255));
    assert_valid(&calls);
    calls.push_str(".len()");
    assert_eq!(parse(&calls), rejected(ParseErrorKind::TooDeep, 1531));
    let mut wide = String::from("[1");
    wide.push_str(&", 1".repeat(10000));
    wide.push(']');
    assert_valid(&wide);
}

#[test]
fn very_deep_text_is_rejected() {
    for open in ["(", "[", "-", "!", "[1].contains(", "1 + (", "-["] {
        let text = open.repeat(200_000);
        assert!(matches!(
            parse(&text),
            Err(ParseError { kind: ParseErrorKind::TooDeep, .. })
        ));
    }
    let mut sum = String::from("1");
    sum.push_str(&" - 1".repeat(200_000));
    assert!(matches!(
        parse(&sum),
        Err(ParseError { kind: ParseErrorKind::TooDeep, .. })
    ));
}

#[test]
fn rejections_have_words() {
    assert_eq!(parse("").unwrap_err().message(), "unexpected input at character 0");
    assert_eq!(
        parse("'ab' + 'c\\q'").unwrap_err().message(),
        "invalid escape sequence at character 9"
    );
    assert_eq!(
        parse("[1, 9223372036854775808]").unwrap_err().message(),
        "integer literal too large at character 4"
    );
    assert_eq!(
        parse("          1.size()").unwrap_err().message(),
        "unknown method at character 12"
    );
    assert_eq!(
        parse(&"(".repeat(300)).unwrap_err().message(),
        "nested too deep at character 256"
    );
}

#[test]
fn white_space_around_a_text() {
    let texts = [
        "1 - 2 - 3",
        "[0, '1', 2 + '3'].len()",
        "(1 < 2) == !false",
        "b'a\\x41'.len()",
        "1.5 * -2",
        "1 +",
        "'abc",
        "\"\\8\"",
        "9223372036854775808",
        "1.size()",
        "tru",
        "",
    ];
    for text in texts {
        let plain = parse(text);
        let spaced = parse(&format!(" \t\n{}\r\x0c ", text));
        match plain {
            Ok(tree) => assert_eq!(spaced, Ok(tree)),
            Err(error) => assert_eq!(spaced.map_err(|other| other.kind), Err(error.kind)),
        }
    }
    assert_eq!(parse(" 1 +"), rejected(ParseErrorKind::UnexpectedInput, 4));
    assert_eq!(parse(" 1 + "), rejected(ParseErrorKind::UnexpectedInput, 5));
}
