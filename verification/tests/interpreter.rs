use cel_rs::floats::resolve;
use cel_rs::errors::{EvalError, FloatOp, FloatRequest};
use cel_rs::interpreter::evaluate;
use cel_rs::semantics::Operator;
use cel_rs::values::apply;
use cel_rs::model::{Expression, Float, Literal, MethodName};
use cel_rs::parsers::parse;

fn answer(request: &FloatRequest) -> u64 {
    match request {
        FloatRequest::Convert(text) => text.parse::<f64>().unwrap().to_bits(),
        FloatRequest::Binary(op, a, b) => {
            let a = f64::from_bits(*a);
            let b = f64::from_bits(*b);
            let r = match op {
                FloatOp::Add => a + b,
                FloatOp::Sub => a - b,
                FloatOp::Mul => a * b,
                FloatOp::Div => a / b,
                FloatOp::Pow => a.powf(b),
            };
            r.to_bits()
        }
        FloatRequest::PowInt(a, n) => f64::from_bits(*a).powf(*n as f64).to_bits(),
    }
}

fn run(tree: Expression) -> Result<Literal, EvalError> {
    let mut tree = tree;
    loop {
        match evaluate(tree.clone()) {
            Err(EvalError::NeedsFloat(request)) => tree = resolve(tree, answer(&request)),
            result => return result,
        }
    }
}

fn float(x: f64) -> Literal {
    Literal::F64(Float::Bits(x.to_bits()))
}

fn assert_eval_true(input: &str) {
    assert_eq!(
        evaluate(parse(input).unwrap()).unwrap(),
        Literal::Bool(true)
    );
}

fn failure(input: &str) -> Result<Literal, String> {
    evaluate(parse(input).unwrap()).map_err(|error| error.message())
}

#[test]
fn smoke() {
    let input = r#" 1 + 2 + 3 + 4 + 5 "#;
    assert_eq!(
        evaluate(parse(input).unwrap()),
        Ok(Literal::I64(1 + 2 + 3 + 4 + 5)),
    );
}

#[test]
fn unary_negative() {
    let input = r#" -5 + 8 "#;
    assert_eq!(evaluate(parse(input).unwrap()), Ok(Literal::I64(3)),);
}

#[test]
fn unary_not() {
    let input = r#" !(5 + 5 == 10) "#;
    assert_eq!(evaluate(parse(input).unwrap()), Ok(Literal::Bool(false)),);
}

#[test]
fn string_addition() {
    let input = r#" "asdf" + "pqrs" + "tuvw" == "asdfpqrstuvw" "#;
    assert_eq!(evaluate(parse(input).unwrap()), Ok(Literal::Bool(true)),);
}

#[test]
fn addition_and_subtraction() {
    // The operators nest to the right: the text is 1 - (2 + (3 - (4 + 5))).
    let input = r#" 1 - 2 + 3 - 4 + 5 "#;
    assert_eq!(
        evaluate(parse(input).unwrap()),
        Ok(Literal::I64(1 - (2 + (3 - (4 + 5))))),
    );
    assert_eq!(evaluate(parse(input).unwrap()), Ok(Literal::I64(5)));
}

#[test]
fn multiplication_and_division() {
    // The operators nest to the right: the text is
    // 1.0 / (2.0 * (3.0 / (4.0 * 5.0))).
    let input = r#" 1.0 / 2.0 * 3.0 / 4.0 * 5.0 "#;
    assert_eq!(
        run(parse(input).unwrap()),
        Ok(float(1.0 / (2.0 * (3.0 / (4.0 * 5.0))))),
    );
}

#[test]
fn string_len() {
    let input = r#" "asdf".len() + "pqrs".len() "#;
    assert_eq!(evaluate(parse(input).unwrap()), Ok(Literal::I64(8)),);
}

#[test]
fn bytes_len() {
    let input = r#" b"\xFF".len() "#;
    assert_eq!(evaluate(parse(input).unwrap()), Ok(Literal::I64(1)),);
}

#[test]
fn bytes_eq() {
    let input = r#" b"¢" == b'\xC2\xA2' "#;
    assert_eq!(evaluate(parse(input).unwrap()), Ok(Literal::Bool(true)));
}

#[test]
fn bytes_cmp() {
    assert_eval_true(r#" b"\x00" < b"\x01" "#);
    assert_eval_true(r#" b"asdf" < b"pqrs" "#);
    assert_eval_true(r#" b"" < b"asdf" "#);
    assert_eval_true(r#" b"\xFE\xFF\xFF\xFF\xFF" < b"\xFF" "#);
}

#[test]
fn int_pow() {
    let input = r#" 42.pow(2) "#;
    assert_eq!(evaluate(parse(input).unwrap()), Ok(Literal::I64(42 * 42)),);
}

#[test]
fn float_powf() {
    let input = r#" 3.1415926.pow(3.1415926) "#;
    assert_eq!(
        run(parse(input).unwrap()),
        Ok(float(3.1415926f64.powf(3.1415926))),
    );
}

#[test]
fn float_powi() {
    let input = r#" 3.1415926.pow(2) "#;
    assert_eq!(
        run(parse(input).unwrap()),
        Ok(float(3.1415926f64.powf(2.0))),
    );
}

#[test]
fn list_len() {
    let input = r#" ["a", 3, false].len() "#;
    assert_eq!(evaluate(parse(input).unwrap()), Ok(Literal::I64(3)),);
}

#[test]
fn list_contains_true() {
    let input = r#" ["a", 3, false].contains(3) "#;
    assert_eq!(evaluate(parse(input).unwrap()), Ok(Literal::Bool(true)),);
}

#[test]
fn list_contains_false() {
    let input = r#" ["a", 3, false].contains(4) "#;
    assert_eq!(evaluate(parse(input).unwrap()), Ok(Literal::Bool(false)),);
}

#[test]
fn list_contains_true_with_error() {
    let input = r#" ["a", 3, 1 / 0].contains(3) "#;
    assert_eq!(evaluate(parse(input).unwrap()), Ok(Literal::Bool(true)),);
}

#[test]
fn list_contains_false_with_error() {
    let input = r#" ["a", 3, 1 / 0].contains(2) "#;
    assert_eq!(failure(input), Err(String::from("divide by zero")),);
    assert_eq!(evaluate(parse(input).unwrap()), Err(EvalError::DivideByZero));
}

#[test]
fn list_contains_error() {
    let input = r#" ["a", 3, false].contains(1 / 0) "#;
    assert_eq!(failure(input), Err(String::from("divide by zero")),);
}

#[test]
fn type_error_adding_string_and_int() {
    let input = r#" "asdf" + 5 "#;
    assert_eq!(failure(input), Err(String::from("invalid types")));
}

#[test]
fn type_error_subtracting_strings() {
    let input = r#" "asdf" - "pqrs" "#;
    assert_eq!(failure(input), Err(String::from("invalid types")));
}

#[test]
fn eval_error_divide_by_zero_int() {
    let input = r#" 1 / 0 "#;
    assert_eq!(failure(input), Err(String::from("divide by zero")));
}

fn value(input: &str) -> Result<Literal, EvalError> {
    evaluate(parse(input).unwrap())
}

fn text(s: &str) -> Literal {
    Literal::String(String::from(s))
}

#[test]
fn float_division_by_zero_is_no_error() {
    assert_eq!(run(parse("1.0 / 0.0").unwrap()), Ok(float(f64::INFINITY)));
    assert_eq!(value("1 / 0"), Err(EvalError::DivideByZero));
    assert_eq!(value("1 % 0"), Err(EvalError::DivideByZero));
}

#[test]
fn float_requests_come_in_order() {
    let tree = parse("1.5 + 2.25 * 2.0").unwrap();
    assert_eq!(
        evaluate(tree.clone()),
        Err(EvalError::NeedsFloat(FloatRequest::Convert(String::from("1.5"))))
    );
    let tree = resolve(tree, 1.5f64.to_bits());
    assert_eq!(
        evaluate(tree.clone()),
        Err(EvalError::NeedsFloat(FloatRequest::Convert(String::from("2.25"))))
    );
    let tree = resolve(tree, 2.25f64.to_bits());
    let tree = resolve(tree, 2.0f64.to_bits());
    assert_eq!(
        evaluate(tree.clone()),
        Err(EvalError::NeedsFloat(FloatRequest::Binary(
            FloatOp::Mul,
            2.25f64.to_bits(),
            2.0f64.to_bits()
        )))
    );
    let tree = resolve(tree, 4.5f64.to_bits());
    assert_eq!(
        tree,
        Expression::Add(
            Box::new(Expression::Lit(float(1.5))),
            Box::new(Expression::Lit(float(4.5))),
        )
    );
    assert_eq!(
        evaluate(tree.clone()),
        Err(EvalError::NeedsFloat(FloatRequest::Binary(
            FloatOp::Add,
            1.5f64.to_bits(),
            4.5f64.to_bits()
        )))
    );
    let tree = resolve(tree, 6.0f64.to_bits());
    assert_eq!(tree, Expression::Lit(float(6.0)));
    assert_eq!(evaluate(tree.clone()), Ok(float(6.0)));
    assert_eq!(resolve(tree.clone(), 0), tree);
}

#[test]
fn float_arithmetic() {
    assert_eq!(run(parse("1.5 + 2.25").unwrap()), Ok(float(3.75)));
    assert_eq!(run(parse("1.5 - 2.25").unwrap()), Ok(float(-0.75)));
    assert_eq!(run(parse("1.5 * 2.0 - 0.5 / 0.25").unwrap()), Ok(float(1.0)));
    assert_eq!(run(parse("2.0.pow(0 - 1)").unwrap()), Ok(float(0.5)));
    assert_eq!(run(parse("[1.5 + 1.5, 2].len()").unwrap()), Ok(Literal::I64(2)));
    assert_eq!(run(parse("1.5 + 2").unwrap()), Err(EvalError::InvalidTypes));
    assert_eq!(run(parse("1.5 % 2.5").unwrap()), Err(EvalError::InvalidTypes));
    assert_eq!(run(parse("1.5 == 1.5").unwrap()), Err(EvalError::InvalidTypes));
    assert_eq!(run(parse("1.5 < 2.5").unwrap()), Err(EvalError::InvalidTypes));
    assert_eq!(run(parse("-1.5").unwrap()), Err(EvalError::InvalidTypes));
    assert_eq!(
        run(parse("1.5.pow(true)").unwrap()),
        Err(EvalError::IllegalType(MethodName::Pow))
    );
    assert_eq!(
        run(parse("1.5.len()").unwrap()),
        Err(EvalError::IllegalType(MethodName::Len))
    );
}

#[test]
fn floats_in_lists() {
    assert_eq!(run(parse("[1, 0.5 + 0.25, 'a'].contains(0.75)").unwrap()), Ok(Literal::Bool(true)));
    assert_eq!(run(parse("[0.0].contains(0.0 * (0.0 - 1.0))").unwrap()), Ok(Literal::Bool(true)));
    assert_eq!(run(parse("[0.0 / 0.0].contains(0.0 / 0.0)").unwrap()), Ok(Literal::Bool(false)));
    assert_eq!(run(parse("[[0.5]].contains([0.50])").unwrap()), Ok(Literal::Bool(true)));
    assert_eq!(run(parse("[1 / 0, 2.5].contains(2.5 * 1.0)").unwrap()), Ok(Literal::Bool(true)));
    assert_eq!(run(parse("[1 / 0, 2.5].contains(3.5)").unwrap()), Err(EvalError::DivideByZero));
}

#[test]
fn integer_arithmetic() {
    assert_eq!(value("7 / 2"), Ok(Literal::I64(3)));
    assert_eq!(value("-7 / 2"), Ok(Literal::I64(-3)));
    assert_eq!(value("7 / -2"), Ok(Literal::I64(-3)));
    assert_eq!(value("-7 / -2"), Ok(Literal::I64(3)));
    assert_eq!(value("7 % 2"), Ok(Literal::I64(1)));
    assert_eq!(value("-7 % 2"), Ok(Literal::I64(-1)));
    assert_eq!(value("7 % -2"), Ok(Literal::I64(1)));
    assert_eq!(value("-7 % -2"), Ok(Literal::I64(-1)));
    assert_eq!(value("2 * 3 - 10"), Ok(Literal::I64(-4)));
    assert_eq!(value("1 - 2 - 3"), Ok(Literal::I64(2)));
    assert_eq!(value("(1 - 2) - 3"), Ok(Literal::I64(-4)));
    assert_eq!(value("100 / 10 / 5"), Ok(Literal::I64(50)));
    assert_eq!(value("(100 / 10) / 5"), Ok(Literal::I64(2)));
    assert_eq!(value("8 / 4 / 2"), Ok(Literal::I64(4)));
    assert_eq!(value("7 % 3"), Ok(Literal::I64(1)));
}

#[test]
fn integer_overflow_is_an_error() {
    assert_eq!(value("9223372036854775807 + 1"), Err(EvalError::Overflow));
    assert_eq!(value("-9223372036854775807 - 2"), Err(EvalError::Overflow));
    assert_eq!(value("-9223372036854775807 - 1"), Ok(Literal::I64(i64::MIN)));
    assert_eq!(value("-(-9223372036854775807 - 1)"), Err(EvalError::Overflow));
    assert_eq!(value("4611686018427387904 * 2"), Err(EvalError::Overflow));
    assert_eq!(value("(-9223372036854775807 - 1) / -1"), Err(EvalError::Overflow));
    assert_eq!(value("(-9223372036854775807 - 1) % -1"), Err(EvalError::Overflow));
    assert_eq!(value("3.pow(40)"), Err(EvalError::Overflow));
    assert_eq!(
        failure("9223372036854775807 + 1"),
        Err(String::from("integer overflow"))
    );
}

#[test]
fn integer_powers() {
    assert_eq!(value("2.pow(62)"), Ok(Literal::I64(1 << 62)));
    assert_eq!(value("2.pow(63)"), Err(EvalError::Overflow));
    assert_eq!(value("(-2).pow(63)"), Ok(Literal::I64(i64::MIN)));
    assert_eq!(value("(-2).pow(64)"), Err(EvalError::Overflow));
    assert_eq!(value("7.pow(0)"), Ok(Literal::I64(1)));
    assert_eq!(value("0.pow(0)"), Ok(Literal::I64(1)));
    assert_eq!(value("0.pow(5)"), Ok(Literal::I64(0)));
    assert_eq!(value("1.pow(4294967295)"), Ok(Literal::I64(1)));
    assert_eq!(value("(-1).pow(4294967295)"), Ok(Literal::I64(-1)));
    assert_eq!(value("(-1).pow(4294967294)"), Ok(Literal::I64(1)));
    assert_eq!(value("(-3).pow(3)"), Ok(Literal::I64(-27)));
}

#[test]
fn the_exponent_is_taken_by_its_low_32_bits() {
    assert_eq!(value("2.pow(4294967296)"), Ok(Literal::I64(1)));
    assert_eq!(value("2.pow(4294967299)"), Ok(Literal::I64(8)));
    assert_eq!(value("1.pow(0 - 1)"), Ok(Literal::I64(1)));
    assert_eq!(value("(-1).pow(0 - 1)"), Ok(Literal::I64(-1)));
    assert_eq!(value("2.pow(0 - 1)"), Err(EvalError::Overflow));
}

#[test]
fn comparisons() {
    assert_eval_true("1 < 2");
    assert_eval_true("2 <= 2");
    assert_eval_true("3 > 2");
    assert_eval_true("3 >= 3");
    assert_eval_true("3 != 4");
    assert_eval_true("!(3 == 4)");
    assert_eval_true(r#" "abc" < "abd" "#);
    assert_eval_true(r#" "ab" < "abc" "#);
    assert_eval_true(r#" "abc" <= "abc" "#);
    assert_eval_true(r#" "b" > "abc" "#);
    assert_eval_true(r#" "" >= "" "#);
    assert_eval_true(r#" "z" < "é" "#);
    assert_eval_true(r#" "é" < "￿" "#);
    assert_eval_true(r#" b"ab" <= b"ab" "#);
    assert_eval_true(r#" b"ab" >= b"a" "#);
    assert_eval_true(r#" b"\xFF" > b"\x7F\xFF" "#);
    assert_eval_true(r#" b"a" != b"b" "#);
    assert_eq!(value("1 < 'a'"), Err(EvalError::InvalidTypes));
    assert_eq!(value("true == true"), Err(EvalError::InvalidTypes));
    assert_eq!(value("[1] == [1]"), Err(EvalError::InvalidTypes));
    assert_eq!(value("'a' == b'a'"), Err(EvalError::InvalidTypes));
    assert_eq!(value("true != false"), Err(EvalError::InvalidTypes));
    assert_eq!(value("true >= false"), Err(EvalError::InvalidTypes));
}

#[test]
fn the_left_operand_fails_first() {
    assert_eq!(value("1 / 0 + (true + 1)"), Err(EvalError::DivideByZero));
    assert_eq!(value("(true + 1) + 1 / 0"), Err(EvalError::InvalidTypes));
    assert_eq!(value("(1 / 0).len()"), Err(EvalError::DivideByZero));
    assert_eq!(value("2.pow(1 / 0)"), Err(EvalError::DivideByZero));
}

#[test]
fn unary_operators_check_types() {
    assert_eq!(value("-true"), Err(EvalError::InvalidTypes));
    assert_eq!(value("!1"), Err(EvalError::InvalidTypes));
    assert_eq!(value("!!true"), Ok(Literal::Bool(true)));
    assert_eq!(value("--1"), Ok(Literal::I64(1)));
}

#[test]
fn strings_are_counted_by_character() {
    assert_eq!(value(r#" "é€".len() "#), Ok(Literal::I64(2)));
    assert_eq!(value(r#" b"é€".len() "#), Ok(Literal::I64(5)));
    assert_eq!(value(r#" "".len() "#), Ok(Literal::I64(0)));
    assert_eq!(value(r#" "ab" + "" + "cd" "#), Ok(text("abcd")));
}

#[test]
fn a_literal_is_its_own_value() {
    assert_eq!(value("true"), Ok(Literal::Bool(true)));
    assert_eq!(value("'a'"), Ok(text("a")));
    assert_eq!(
        value("[1 / 0, 'a']"),
        Ok(Literal::List(vec![
            Expression::Div(
                Box::new(Expression::Lit(Literal::I64(1))),
                Box::new(Expression::Lit(Literal::I64(0))),
            ),
            Expression::Lit(text("a")),
        ]))
    );
    assert_eq!(value("[1 / 0].len()"), Ok(Literal::I64(1)));
}

#[test]
fn methods_check_receiver_and_arguments() {
    let len = MethodName::Len;
    let contains = MethodName::Contains;
    let pow = MethodName::Pow;
    assert_eq!(value("'a'.len(1)"), Err(EvalError::WrongArgumentCount(len)));
    assert_eq!(value("'a'.pow(1)"), Err(EvalError::IllegalType(pow)));
    assert_eq!(value("'a'.contains('a')"), Err(EvalError::IllegalType(contains)));
    assert_eq!(value("b'a'.len(1, 2)"), Err(EvalError::WrongArgumentCount(len)));
    assert_eq!(value("b'a'.contains(1)"), Err(EvalError::IllegalType(contains)));
    assert_eq!(value("1.len()"), Err(EvalError::IllegalType(len)));
    assert_eq!(value("1.contains(1)"), Err(EvalError::IllegalType(contains)));
    assert_eq!(value("1.pow()"), Err(EvalError::WrongArgumentCount(pow)));
    assert_eq!(value("1.pow(1, 2)"), Err(EvalError::WrongArgumentCount(pow)));
    assert_eq!(value("1.pow('a')"), Err(EvalError::IllegalType(pow)));
    assert_eq!(value("[].pow(1)"), Err(EvalError::IllegalType(pow)));
    assert_eq!(value("[].len(1)"), Err(EvalError::WrongArgumentCount(len)));
    assert_eq!(value("[].contains()"), Err(EvalError::WrongArgumentCount(contains)));
    assert_eq!(value("[].contains(1, 2)"), Err(EvalError::WrongArgumentCount(contains)));
    assert_eq!(value("true.len()"), Err(EvalError::IllegalMethodCall(true, len)));
    assert_eq!(value("(1 < 2).pow(1 / 0)"), Err(EvalError::IllegalMethodCall(true, pow)));
}

#[test]
fn messages() {
    assert_eq!(failure("'a'.len(1)"), Err(String::from("too may arguments to .len()")));
    assert_eq!(failure("1.pow()"), Err(String::from("too may arguments to .pow()")));
    assert_eq!(failure("[].contains()"), Err(String::from("too may arguments to .contains()")));
    assert_eq!(failure("1.len()"), Err(String::from("illegal type for .len()")));
    assert_eq!(failure("'a'.contains(1)"), Err(String::from("illegal type for .contains()")));
    assert_eq!(failure("[].pow(1)"), Err(String::from("illegal type for .pow()")));
    assert_eq!(failure("true.len()"), Err(String::from("illegal method call Bool(true).Len")));
    assert_eq!(
        failure("false.contains(1)"),
        Err(String::from("illegal method call Bool(false).Contains"))
    );
    assert_eq!(failure("false.pow(1)"), Err(String::from("illegal method call Bool(false).Pow")));
    assert_eq!(failure("1.5"), Err(String::from("floating-point computation needed")));
}

#[test]
fn contains_compares_values_of_one_type() {
    assert_eq!(value("[].contains(1)"), Ok(Literal::Bool(false)));
    assert_eq!(value("[true].contains(true)"), Ok(Literal::Bool(true)));
    assert_eq!(value("[true].contains(false)"), Ok(Literal::Bool(false)));
    assert_eq!(value("['1'].contains(1)"), Ok(Literal::Bool(false)));
    assert_eq!(value("[b'a'].contains('a')"), Ok(Literal::Bool(false)));
    assert_eq!(value("[b'a'].contains(b'a')"), Ok(Literal::Bool(true)));
    assert_eq!(value("[[1, 2 + 3]].contains([1, 2 + 3])"), Ok(Literal::Bool(true)));
    assert_eq!(value("[[1, 2 + 3]].contains([1, 5])"), Ok(Literal::Bool(false)));
    assert_eq!(value("[[1]].contains([1, 1])"), Ok(Literal::Bool(false)));
    assert_eq!(value("[1 + 1].contains(2)"), Ok(Literal::Bool(true)));
}

#[test]
fn contains_remembers_the_last_failure() {
    assert_eq!(value("[1 / 0, -true].contains(1)"), Err(EvalError::InvalidTypes));
    assert_eq!(value("[-true, 1 / 0].contains(1)"), Err(EvalError::DivideByZero));
    assert_eq!(value("[-true, 1 / 0, 2].contains(1)"), Err(EvalError::DivideByZero));
    assert_eq!(value("[-true, 1 / 0, 1].contains(1)"), Ok(Literal::Bool(true)));
    assert_eq!(value("[1, 1 / 0].contains(1)"), Ok(Literal::Bool(true)));
    assert_eq!(value("[1 / 0].contains(-true)"), Err(EvalError::InvalidTypes));
}

#[test]
fn operators_on_values() {
    assert_eq!(
        apply(Operator::Add, Literal::I64(2), Literal::I64(3)),
        Ok(Literal::I64(5))
    );
    assert_eq!(
        apply(Operator::Add, text("a"), text("b")),
        Ok(text("ab"))
    );
    assert_eq!(
        apply(Operator::Div, float(1.0), float(0.0)),
        Err(EvalError::NeedsFloat(FloatRequest::Binary(
            FloatOp::Div,
            1.0f64.to_bits(),
            0.0f64.to_bits()
        )))
    );
    assert_eq!(
        apply(Operator::Less, Literal::Bytes(vec![1, 2]), Literal::Bytes(vec![1, 3])),
        Ok(Literal::Bool(true))
    );
    assert_eq!(
        apply(Operator::Equal, Literal::Bool(true), Literal::Bool(true)),
        Err(EvalError::InvalidTypes)
    );
}

#[test]
fn arbitrary_text_never_panics() {
    let inputs = [
        "", " ", "\u{0}", "((((", "))))", "[[[[", "1.", ".1", "'", "\"\\", "b", "b'", "\\",
        "1 +", "+ 1", "1..len()", "1.len(", "1.len(,)", "é", "'é'.len()", "¢ + ¢", "\u{10FFFF}",
        "!-!-!-1", "[1,2,3].contains([1,2,3].len())", "true.pow(false)", "18446744073709551616",
        "0.0000000000000000000000000000000000000000000000000000000000000000000000000000001",
        "1e5", "0x10", "null", "a.b", "1 == 1 == 1", "'\\u0000' + '\\377'", "b'\\uD7FF'",
    ];
    for input in inputs {
        if let Ok(tree) = parse(input) {
            let _ = run(tree);
        }
    }
    for piece in ["(", "-", "[", "1.5+", "1/0+", "[1].contains(", "'a'.len().pow("] {
        for count in [255, 256, 257, 100_000] {
            if let Ok(tree) = parse(&piece.repeat(count)) {
                let _ = run(tree);
            }
        }
    }
}

#[test]
fn the_highest_trees_evaluate() {
    let mut sum = String::from("1");
    sum.push_str(&"+1".repeat(255));
    assert_eq!(value(&sum), Ok(Literal::I64(256)));
    let mut negated = "-".repeat(254);
    negated.push_str("(1 + 1)");
    assert_eq!(value(&negated), Ok(Literal::I64(2)));
    let mut floats = String::from("0.5");
    floats.push_str(&" + 0.5".repeat(255));
    assert_eq!(run(parse(&floats).unwrap()), Ok(float(128.0)));
    let mut list = "[".repeat(255);
    list.push_str(&"]".repeat(255));
    list.push_str(".len()");
    assert_eq!(value(&list), Ok(Literal::I64(1)));
}
