use cel_rs::model::{Expression, Float, Literal, MethodName};
use cel_rs::parsers::parse;
use cel_rs::printer::print;

fn reprinted(input: &str) -> String {
    print(&parse(input).unwrap())
}

#[test]
fn trees_are_written_without_needless_brackets() {
    assert_eq!(reprinted(" 1 + 2 * 3 "), "1+2*3");
    assert_eq!(reprinted("(1 + 2) * 3"), "(1+2)*3");
    assert_eq!(reprinted("1 - 2 - 3"), "1-2-3");
    assert_eq!(reprinted("1 - (2 - 3)"), "1-2-3");
    assert_eq!(reprinted("(1 - 2) - 3"), "(1-2)-3");
    assert_eq!(reprinted("(8 / 4) / (2 * 3)"), "(8/4)/2*3");
    assert_eq!(reprinted("1 * 2 + 3 * 4 - 5"), "1*2+3*4-5");
    assert_eq!(reprinted("(1 + 2) + (3 + 4)"), "(1+2)+3+4");
    assert_eq!(reprinted("8 / (4 / 2) % 3"), "8/(4/2)%3");
    assert_eq!(reprinted("((1))"), "1");
    assert_eq!(reprinted("- - 1"), "--1");
    assert_eq!(reprinted("-(1 + 2)"), "-(1+2)");
    assert_eq!(reprinted("!(1 < 2)"), "!(1<2)");
    assert_eq!(reprinted("(1 < 2) == (3 >= 4)"), "(1<2)==(3>=4)");
    assert_eq!(reprinted("1 <= 2"), "1<=2");
    assert_eq!(reprinted("1 != 2"), "1!=2");
    assert_eq!(reprinted("1 > -2"), "1>-2");
    assert_eq!(reprinted("[1, 'a' , [ ], 2 + 3].len( )"), "[1,\"a\",[],2+3].len()");
    assert_eq!(reprinted("(1 + 2).pow(3).pow(4, 5 < 6)"), "(1+2).pow(3).pow(4,5<6)");
    assert_eq!(reprinted("(-1).pow(2)"), "(-1).pow(2)");
    assert_eq!(reprinted("-1.pow(2)"), "-1.pow(2)");
    assert_eq!(reprinted("[(1 < 2)].contains(true)"), "[(1<2)].contains(true)");
    assert_eq!(reprinted("3.1415926 * 007.50"), "3.1415926*007.50");
    assert_eq!(reprinted("true == false"), "true==false");
}

#[test]
fn literals_are_written_with_escapes() {
    assert_eq!(reprinted(r#" 'it"s' "#), r#""it\"s""#);
    assert_eq!(reprinted(r#" "a\x5Cb" "#), r#""a\x5cb""#);
    assert_eq!(reprinted(r#" "\t\n" "#), "\"\t\n\"");
    assert_eq!(reprinted(r#" "\377é€" "#), "\"\u{FF}é\u{20AC}\"");
    assert_eq!(reprinted(r#" b"a\377¢" "#), r#"b"\x61\xff\xc2\xa2""#);
    assert_eq!(reprinted(r#" b'' "#), r#"b"""#);
    assert_eq!(reprinted("9223372036854775807"), "9223372036854775807");
    assert_eq!(reprinted("000"), "0");
}

#[test]
fn trees_that_no_text_gives_are_written_too() {
    assert_eq!(print(&Expression::Lit(Literal::I64(-5))), "(-5)");
    assert_eq!(
        print(&Expression::Lit(Literal::I64(i64::MIN))),
        "(-9223372036854775808)"
    );
    assert_eq!(print(&Expression::Lit(Literal::F64(Float::Bits(7)))), "#7#");
    assert_eq!(
        print(&Expression::Method(
            Box::new(Expression::Lit(Literal::I64(-1))),
            MethodName::Len,
            vec![],
        )),
        "(-1).len()"
    );
}

#[test]
fn what_is_written_reads_back() {
    let inputs = [
        "1",
        " 1 + 2 + 3 + 4 + 5 ",
        " -5 + 8 ",
        " !(5 + 5 == 10) ",
        r#" "asdf" + "pqrs" + "tuvw" == "asdfpqrstuvw" "#,
        " 1 - 2 + 3 - 4 + 5 ",
        " 1.0 / 2.0 * 3.0 / 4.0 * 5.0 ",
        r#" "asdf".len() + "pqrs".len() "#,
        r#" b"\xFF".len() "#,
        r#" b"¢" == b'\xC2\xA2' "#,
        r#" b"\xFE\xFF\xFF\xFF\xFF" < b"\xFF" "#,
        " 42.pow(2) ",
        " 3.1415926.pow(3.1415926) ",
        r#" ["a", 3, 1 / 0].contains(3) "#,
        r#" "\0\7\07\77\377\400\"\x00\u0000￿'" "#,
        r#" '"' + "'" + '\"' "#,
        "22 * (4 + 15)",
        "[0, '1', 2 + '3']",
        " ([1] + [2]).len().pow(2) ",
        "((((1 - (2 - 3)) * (4 / (5 % 6))) <= -(-7)))",
        "!!true != (1 > 2)",
        "[[[], [1, [2, 3]]], [(4 < 5)].contains(6 >= 7)].len()",
        "1.pow(2,3).contains().len(4)",
        "--1.5.pow(-2)",
    ];
    for input in inputs {
        let tree = parse(input).unwrap();
        assert_eq!(parse(&print(&tree)), Ok(tree));
    }
}

#[test]
fn the_deepest_trees_read_back() {
    let mut texts = vec![
        "(".repeat(256) + "1" + &")".repeat(256),
        "-".repeat(255) + "1",
        "[".repeat(256) + &"]".repeat(256),
        String::from("1") + &"+1".repeat(255),
        String::from("1") + &".len()".repeat(255),
        "-(".repeat(127) + "1" + &")".repeat(127),
        "1.pow(".repeat(255) + "1" + &")".repeat(255),
    ];
    texts.push(String::from("1") + &"-(1".repeat(120) + &")".repeat(120));
    texts.push("(".repeat(250) + "1" + &")-1".repeat(250));
    texts.push(String::from("1") + &"*2".repeat(255));
    for text in texts {
        let tree = parse(&text).unwrap();
        assert_eq!(parse(&print(&tree)), Ok(tree));
    }
}
