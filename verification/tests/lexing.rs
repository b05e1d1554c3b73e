use qcc::error::{QccError, QccErrorKind};
use qcc::lexer::{Lexer, Location, Pointer, Token};

fn lexer(text: &str) -> Lexer {
    Lexer::new(text.as_bytes().to_vec(), String::from("dir/file.ql"))
}

/// The kinds and texts of all tokens of `text`.
fn tokens(text: &str) -> Vec<(Token, String)> {
    lexer(text)
        .tokenize()
        .unwrap()
        .into_iter()
        .map(|l| (l.token, l.text()))
        .collect()
}

fn kinds(text: &str) -> Vec<Token> {
    tokens(text).into_iter().map(|(t, _)| t).collect()
}

#[test]
fn single_character_tokens() {
    assert_eq!(
        kinds("# [ ] ( ) { } , : ; ! = + - * /"),
        vec![
            Token::Hash,
            Token::OBracket,
            Token::CBracket,
            Token::OParenth,
            Token::CParenth,
            Token::OCurly,
            Token::CCurly,
            Token::Comma,
            Token::Colon,
            Token::Semicolon,
            Token::Bang,
            Token::Assign,
            Token::Add,
            Token::Sub,
            Token::Mul,
            Token::Div,
        ]
    );
}

#[test]
fn comparisons_go_before_their_first_byte() {
    assert_eq!(
        kinds("== != <= >= < > = !"),
        vec![
            Token::Eq,
            Token::Neq,
            Token::LTE,
            Token::GTE,
            Token::LT,
            Token::GT,
            Token::Assign,
            Token::Bang,
        ]
    );
    assert_eq!(kinds("a<=b"), vec![Token::Identifier, Token::LTE, Token::Identifier]);
    assert_eq!(kinds("==="), vec![Token::Eq, Token::Assign]);
}

#[test]
fn keywords_and_identifiers() {
    assert_eq!(
        kinds("fn return const extern module let if else import alias true false"),
        vec![
            Token::Function,
            Token::Return,
            Token::Const,
            Token::Extern,
            Token::Module,
            Token::Let,
            Token::If,
            Token::Else,
            Token::Import,
            Token::Alias,
            Token::Boolean,
            Token::Boolean,
        ]
    );
    assert_eq!(
        tokens("fnx _a b_1 lets"),
        vec![
            (Token::Identifier, String::from("fnx")),
            (Token::Identifier, String::from("_a")),
            (Token::Identifier, String::from("b_1")),
            (Token::Identifier, String::from("lets")),
        ]
    );
}

#[test]
fn numbers_take_digits_and_dots() {
    assert_eq!(
        tokens("42 3.14 1.2.3 7x"),
        vec![
            (Token::Digit, String::from("42")),
            (Token::Digit, String::from("3.14")),
            (Token::Digit, String::from("1.2.3")),
            (Token::Digit, String::from("7")),
            (Token::Identifier, String::from("x")),
        ]
    );
}

#[test]
fn minus_before_a_digit_belongs_to_the_number() {
    assert_eq!(tokens("-42"), vec![(Token::Digit, String::from("-42"))]);
    assert_eq!(
        tokens("- 42"),
        vec![(Token::Sub, String::from("-")), (Token::Digit, String::from("42"))]
    );
    assert_eq!(
        tokens("x - 99"),
        vec![
            (Token::Identifier, String::from("x")),
            (Token::Sub, String::from("-")),
            (Token::Digit, String::from("99")),
        ]
    );
    assert_eq!(
        tokens("-e1"),
        vec![(Token::Sub, String::from("-")), (Token::Identifier, String::from("e1"))]
    );
}

#[test]
fn quantum_literal_is_one_token() {
    assert_eq!(
        tokens("let q = 0q(1, 0);"),
        vec![
            (Token::Let, String::from("let")),
            (Token::Identifier, String::from("q")),
            (Token::Assign, String::from("=")),
            (Token::Qbit, String::from("0q(1, 0)")),
            (Token::Semicolon, String::from(";")),
        ]
    );
    // without a closing parenthesis the literal ends with its line
    assert_eq!(
        tokens("0q(1, 0\nx"),
        vec![(Token::Qbit, String::from("0q(1, 0")), (Token::Identifier, String::from("x"))]
    );
    assert_eq!(tokens("0q"), vec![(Token::Qbit, String::from("0q"))]);
}

#[test]
fn comments_and_whitespace_are_passed_over() {
    assert_eq!(kinds("// nothing\n"), vec![]);
    assert_eq!(kinds(""), vec![]);
    assert_eq!(kinds(" \t\r\n\x0c "), vec![]);
    assert_eq!(
        kinds("a // b c\n\t// d\ne"),
        vec![Token::Identifier, Token::Identifier]
    );
    assert_eq!(kinds("a / b"), vec![Token::Identifier, Token::Div, Token::Identifier]);
    assert_eq!(kinds("a //"), vec![Token::Identifier]);
}

#[test]
fn unknown_byte_is_a_lexer_error() {
    assert_eq!(
        lexer("let x = $;").tokenize().err(),
        Some(QccError(QccErrorKind::LexerError))
    );
    assert_eq!(lexer("\"text\"").tokenize().err(), Some(QccError(QccErrorKind::LexerError)));
    assert_eq!(lexer("a @ b").tokenize().err(), Some(QccError(QccErrorKind::LexerError)));
    // in a comment any byte may stand
    assert!(lexer("// $ @ \"\n").tokenize().is_ok());
}

#[test]
fn tokens_carry_their_places() {
    let all = lexer("fn main() {\n    let x = 1;\n}\n").tokenize().unwrap();
    let places: Vec<(usize, usize)> = all.iter().map(|l| (l.location.row(), l.location.col())).collect();
    assert_eq!(
        places,
        vec![
            (1, 1),
            (1, 4),
            (1, 8),
            (1, 9),
            (1, 11),
            (2, 5),
            (2, 9),
            (2, 11),
            (2, 13),
            (2, 14),
            (3, 1),
        ]
    );
    assert!(all.iter().all(|l| l.location.path() == "dir/file.ql"));
    // the bounds of the line of each token
    assert_eq!(all[0].line, (0, 12));
    assert_eq!(all[5].line, (12, 27));
    assert_eq!(all[10].line, (27, 29));
}

#[test]
fn a_tab_counts_as_one_column() {
    let all = lexer("\t\tfn").tokenize().unwrap();
    assert_eq!((all[0].location.row(), all[0].location.col()), (1, 3));
}

#[test]
fn next_token_and_consume_walk_the_source() {
    let mut lx = lexer("fn  main ( )");
    assert_eq!(lx.token, None);
    assert_eq!(lx.next_token(), Ok(Some(Token::Function)));
    assert!(lx.is_token(Token::Function));
    assert!(!lx.is_token(Token::Identifier));
    assert_eq!(lx.identifier(), "fn");
    assert_eq!(lx.previous(), 102);
    assert_eq!(lx.current(), 32);
    assert_eq!(lx.consume(Token::Function), Ok(()));
    assert_eq!(lx.token, Some(Token::Identifier));
    assert_eq!(lx.identifier(), "main");
    assert_eq!(lx.location, Location::new("dir/file.ql", 1, 5));
    assert_eq!(lx.line(), "fn  main ( )");
    assert_eq!(lx.slice(4, 8), "main");
    assert!(lx.is_any_token(&[Token::Digit, Token::Identifier]));
    assert!(!lx.is_any_token(&[Token::Digit, Token::Function]));
    assert!(lx.is_none_token(&[Token::Digit, Token::Function]));
    assert!(!lx.is_none_token(&[Token::Identifier]));
    assert_eq!(lx.consume(Token::Identifier), Ok(()));
    assert_eq!(lx.token(), Ok(Some(Token::CParenth)));
    assert_eq!(lx.consume(Token::CParenth), Ok(()));
    assert_eq!(lx.token, None);
    // at the end nothing is left to take
    assert_eq!(lx.consume(Token::CParenth), Ok(()));
    assert_eq!(lx.next_token(), Ok(None));
    assert!(!lx.is_any_token(&[Token::CParenth]));
    assert!(!lx.is_none_token(&[Token::CParenth]));
}

#[test]
fn reading_goes_on_behind_an_unknown_byte() {
    let mut lx = lexer("$ x");
    assert_eq!(lx.next_token(), Err(QccError(QccErrorKind::LexerError)));
    assert_eq!(lx.token, None);
    assert_eq!(lx.next_token(), Ok(Some(Token::Identifier)));
    assert_eq!(lx.identifier(), "x");
}

#[test]
fn digit_reads_the_numeral_of_the_token() {
    let mut lx = lexer("-007.50 1.2.3");
    assert_eq!(lx.next_token(), Ok(Some(Token::Digit)));
    assert_eq!(lx.digit().unwrap().to_string(), "-7.5");
    assert_eq!(lx.next_token(), Ok(Some(Token::Digit)));
    assert!(lx.digit().is_none());
}

#[test]
fn all_binops_are_the_ten_operators() {
    assert_eq!(
        Token::all_binops(),
        vec![
            Token::Add,
            Token::Sub,
            Token::Mul,
            Token::Div,
            Token::Eq,
            Token::Neq,
            Token::LT,
            Token::GT,
            Token::LTE,
            Token::GTE,
        ]
    );
}

#[test]
fn pointer_moves() {
    let p = Pointer { start: 2, prev: 5, current: 7, end: 11 };
    assert_eq!(Pointer::new(), Pointer { start: 0, prev: 0, current: 0, end: 0 });
    assert_eq!(p.backward(), Pointer { start: 2, prev: 2, current: 2, end: 2 });
    assert_eq!(p.forward(), Pointer { start: 11, prev: 11, current: 11, end: 11 });
    assert_eq!(p.reset(), Pointer { start: 2, prev: 7, current: 7, end: 11 });
    assert_eq!(p.range(), (2, 11));
}

#[test]
fn location_is_printed_with_the_file_name_only() {
    assert_eq!(Location::new("a/b/c.ql", 12, 3).to_string(), "@c.ql:12:3");
    assert_eq!(Location::new("c.ql", 0, 100).to_string(), "@c.ql:0:100");
    assert_eq!(Location::new("a/", 1, 1).to_string(), "@:1:1");
    assert_eq!(Location::default().to_string(), "@unknown:0:0");
    assert_eq!(Location::default(), Location::new("unknown", 0, 0));
    assert!(Location::new("a", 1, 2) != Location::new("a", 1, 3));
    assert!(Location::new("a", 1, 2) != Location::new("b", 1, 2));
}
