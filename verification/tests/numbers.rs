use qcc::ast::{LiteralAST, Opcode, Qbit};
use qcc::error::{QccError, QccErrorKind};
use qcc::lexer::Token;
use qcc::number::Number;
use qcc::types::Type;

fn printed(text: &str) -> Option<String> {
    Number::parse(text.as_bytes()).map(|n| n.to_string())
}

#[test]
fn numerals_are_printed_in_their_shortest_form() {
    assert_eq!(printed("42"), Some(String::from("42")));
    assert_eq!(printed("-42"), Some(String::from("-42")));
    assert_eq!(printed("+42"), Some(String::from("42")));
    assert_eq!(printed("3.14"), Some(String::from("3.14")));
    assert_eq!(printed("007.500"), Some(String::from("7.5")));
    assert_eq!(printed("0.0"), Some(String::from("0")));
    assert_eq!(printed("000"), Some(String::from("0")));
    assert_eq!(printed("-0"), Some(String::from("-0")));
    assert_eq!(printed("5."), Some(String::from("5")));
    assert_eq!(printed(".5"), Some(String::from("0.5")));
    assert_eq!(printed("10.010"), Some(String::from("10.01")));
    assert_eq!(
        printed("123456789012345678901234567890.5"),
        Some(String::from("123456789012345678901234567890.5"))
    );
}

#[test]
fn what_is_no_numeral_is_refused() {
    assert_eq!(printed(""), None);
    assert_eq!(printed("-"), None);
    assert_eq!(printed("."), None);
    assert_eq!(printed("-."), None);
    assert_eq!(printed("1.2.3"), None);
    assert_eq!(printed("1e5"), None);
    assert_eq!(printed("a"), None);
    assert_eq!(printed("1 "), None);
    assert_eq!(printed(" 1"), None);
    assert_eq!(printed("--1"), None);
}

#[test]
fn printed_numeral_reads_as_itself() {
    for text in ["42", "-42", "007.500", ".5", "5.", "-0", "0.707", "2.718"] {
        let once = printed(text).unwrap();
        let twice = printed(&once).unwrap();
        assert_eq!(once, twice);
    }
}

#[test]
fn quantum_literal_is_printed_with_an_underscore() {
    assert_eq!(Qbit::from_str("0q(1, 0)").unwrap().to_string(), "0q1_0");
    assert_eq!(Qbit::from_str("0q(0,1)").unwrap().to_string(), "0q0_1");
    assert_eq!(Qbit::from_str("0q( 0.70 ,  -0.5 )").unwrap().to_string(), "0q0.7_-0.5");
}

#[test]
fn quantum_literal_round_trip() {
    for text in ["0q(1, 0)", "0q(0.5000,00.5)", "0q( -1 , .25 )"] {
        let q = Qbit::from_str(text).unwrap();
        let source = format!("0q({},{})", q.amp_0.to_string(), q.amp_1.to_string());
        let again = Qbit::from_str(&source).unwrap();
        assert_eq!(again.to_string(), q.to_string());
    }
}

#[test]
fn quantum_literal_errors() {
    assert_eq!(Qbit::from_str("0q0.5, 0.5)").err(), Some(QccErrorKind::ExpectedParenth));
    assert_eq!(Qbit::from_str("0q(0.5 0.5)").err(), Some(QccErrorKind::ExpectedComma));
    assert_eq!(Qbit::from_str("0q(1, a)").err(), Some(QccErrorKind::ExpectedAmpinQbit));
    assert_eq!(Qbit::from_str("0q(a, 1)").err(), Some(QccErrorKind::ExpectedAmpinQbit));
    assert_eq!(Qbit::from_str("0q(1, )").err(), Some(QccErrorKind::ExpectedAmpinQbit));
    assert_eq!(Qbit::from_str("0q(1, 0").err(), Some(QccErrorKind::ExpectedParenth));
    assert_eq!(Qbit::from_str("0q").err(), Some(QccErrorKind::ExpectedParenth));
    assert_eq!(Qbit::from_str("0q()").err(), Some(QccErrorKind::ExpectedComma));
    assert_eq!(Qbit::from_str("q(1, 0)").err(), Some(QccErrorKind::ExpectedQbit));
    assert_eq!(Qbit::from_str("(1, 0)").err(), Some(QccErrorKind::ExpectedQbit));
    assert_eq!(Qbit::from_str("").err(), Some(QccErrorKind::ExpectedQbit));
}

#[test]
fn literals() {
    assert_eq!(LiteralAST::from_str("42").unwrap().to_string(), "42");
    assert_eq!(LiteralAST::from_str("42").unwrap().get_type(), Type::F64);
    assert_eq!(LiteralAST::from_str("0q(1,0)").unwrap().to_string(), "0q1_0");
    assert_eq!(LiteralAST::from_str("0q(1,0)").unwrap().get_type(), Type::Qbit);
    assert_eq!(LiteralAST::from_str("true").unwrap().to_string(), "true");
    assert_eq!(LiteralAST::from_str("false").unwrap().to_string(), "false");
    assert_eq!(LiteralAST::from_str("true").unwrap().get_type(), Type::Bit);
    assert_eq!(LiteralAST::from_str("\"text\"").err(), Some(QccErrorKind::UnexpectedStr));
    assert_eq!(LiteralAST::from_str("\"text").err(), Some(QccErrorKind::UnexpectedStr));
    assert_eq!(LiteralAST::from_str("x").err(), Some(QccErrorKind::UnexpectedDigit));
    assert_eq!(LiteralAST::from_str("0q(1)").err(), Some(QccErrorKind::ExpectedComma));
    assert_eq!(LiteralAST::Str(b"text".to_vec()).to_string(), "\"text\"");
    assert_eq!(LiteralAST::Str(b"text".to_vec()).get_type(), Type::Bottom);
}

#[test]
fn opcodes() {
    let all = [
        ("+", Opcode::Add, Token::Add),
        ("-", Opcode::Sub, Token::Sub),
        ("*", Opcode::Mul, Token::Mul),
        ("/", Opcode::Div, Token::Div),
        ("==", Opcode::Eq, Token::Eq),
        ("!=", Opcode::Neq, Token::Neq),
        ("<", Opcode::LT, Token::LT),
        (">", Opcode::GT, Token::GT),
        ("<=", Opcode::LTE, Token::LTE),
        (">=", Opcode::GTE, Token::GTE),
    ];
    for (text, op, token) in all {
        assert_eq!(Opcode::from_str(text), Ok(op));
        assert_eq!(op.to_string(), text);
        assert_eq!(op.symbol(), text);
        assert_eq!(Opcode::of_token(token), Some(op));
    }
    assert_eq!(Opcode::from_str("%"), Err(QccError(QccErrorKind::UnknownOpcode)));
    assert_eq!(Opcode::from_str(""), Err(QccError(QccErrorKind::UnknownOpcode)));
    assert_eq!(Opcode::of_token(Token::Assign), None);
    assert_eq!(Opcode::of_token(Token::Identifier), None);
}

#[test]
fn types_have_names() {
    assert_eq!(Type::from_str("rad"), Ok(Type::Rad));
    assert_eq!(Type::from_str("qbit"), Ok(Type::Qbit));
    assert_eq!(Type::from_str("bit"), Ok(Type::Bit));
    assert_eq!(Type::from_str("f64"), Ok(Type::F64));
    assert_eq!(Type::from_str("float64"), Err(QccErrorKind::UnexpectedType));
    assert_eq!(Type::from_str(""), Err(QccErrorKind::UnexpectedType));
    assert_eq!(Type::Bottom.to_string(), "<bottom>");
    assert_eq!(Type::Rad.to_string(), "radians");
    assert_eq!(Type::Qbit.to_string(), "qubit");
    assert_eq!(Type::Bit.to_string(), "bit");
    assert_eq!(Type::F64.to_string(), "float64");
    assert_eq!(Type::default(), Type::Bottom);
}

#[test]
fn bigtype_is_the_greater_and_smalltype_the_lesser() {
    let order = [Type::Bottom, Type::Bit, Type::Qbit, Type::Rad, Type::F64];
    for (i, a) in order.iter().enumerate() {
        for (j, b) in order.iter().enumerate() {
            let big = if i >= j { *a } else { *b };
            let small = if i <= j { *a } else { *b };
            assert_eq!(Type::bigtype(*a, *b), big);
            assert_eq!(Type::smalltype(*a, *b), small);
        }
    }
}

#[test]
fn bigtype_is_commutative_and_associative() {
    let all = [Type::Bottom, Type::Bit, Type::Qbit, Type::Rad, Type::F64];
    for a in all {
        for b in all {
            assert_eq!(Type::bigtype(a, b), Type::bigtype(b, a));
            assert_eq!(Type::smalltype(a, b), Type::smalltype(b, a));
            for c in all {
                assert_eq!(
                    Type::bigtype(Type::bigtype(a, b), c),
                    Type::bigtype(a, Type::bigtype(b, c))
                );
                assert_eq!(
                    Type::smalltype(Type::smalltype(a, b), c),
                    Type::smalltype(a, Type::smalltype(b, c))
                );
            }
        }
    }
}
