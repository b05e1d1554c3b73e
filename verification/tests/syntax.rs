use qcc::ast::{Expr, Qast};
use qcc::error::{QccError, QccErrorKind};
use qcc::parser::Parser;
use qcc::types::Type;

/// Parses `text` as the file `m.ql` and returns the result and, of each
/// diagnostic, the kind and the place.
fn parse(text: &str) -> (Result<Qast, QccError>, Vec<(QccErrorKind, usize, usize)>) {
    let mut parser = Parser::new(vec!["m.ql"], Some(text.as_bytes().to_vec())).unwrap().unwrap();
    let parsed = parser.parse(&String::from("m.ql"));
    let reports = parser
        .diagnostics()
        .iter()
        .map(|d| (d.error.0.0, d.error.1.row(), d.error.1.col()))
        .collect();
    (parsed, reports)
}

/// The kind and place of the only diagnostic of `text`.
fn only_error(text: &str) -> (QccErrorKind, usize, usize) {
    let (parsed, reports) = parse(text);
    assert_eq!(parsed.err(), Some(QccError(QccErrorKind::ParseError)), "{}", text);
    assert_eq!(reports.len(), 1, "{}", text);
    reports[0]
}

/// The body of the only function of `text`, each expression as it is
/// printed.
fn body(text: &str) -> Vec<String> {
    let (parsed, reports) = parse(text);
    assert_eq!(reports, vec![], "{}", text);
    let ast = parsed.unwrap();
    assert_eq!(ast.modules.len(), 1);
    assert_eq!(ast.modules[0].functions.len(), 1);
    ast.modules[0].functions[0].body.iter().map(|e| e.to_string()).collect()
}

#[test]
fn function_header_errors() {
    assert_eq!(only_error("fn () {}"), (QccErrorKind::ExpectedFnName, 1, 4));
    assert_eq!(only_error("fn f {}"), (QccErrorKind::ExpectedFnArgs, 1, 6));
    assert_eq!(only_error("fn f(x) {}"), (QccErrorKind::ExpectedParamType, 1, 7));
    assert_eq!(only_error("fn f(x: ) {}"), (QccErrorKind::ExpectedParamType, 1, 9));
    assert_eq!(only_error("fn f(x: int) {}"), (QccErrorKind::UnexpectedType, 1, 9));
    assert_eq!(only_error("fn f(x: f64 y: f64) {}"), (QccErrorKind::ExpectedAttr, 1, 13));
    assert_eq!(only_error("fn f(): {}"), (QccErrorKind::ExpectedFnReturnType, 1, 9));
    assert_eq!(only_error("fn f(): float {}"), (QccErrorKind::UnexpectedType, 1, 9));
    assert_eq!(only_error("fn f() x"), (QccErrorKind::ExpectedFnBody, 1, 8));
    assert_eq!(only_error("fn f() {"), (QccErrorKind::ExpectedFnBodyEnd, 1, 9));
    assert_eq!(only_error("fn f("), (QccErrorKind::ExpectedAttr, 1, 6));
}

#[test]
fn attribute_errors() {
    assert_eq!(only_error("#[unknown] fn f() {}"), (QccErrorKind::UnexpectedAttr, 1, 3));
    assert_eq!(only_error("#[deter, what] fn f() {}"), (QccErrorKind::UnexpectedAttr, 1, 10));
    assert_eq!(only_error("#[] fn f() {}"), (QccErrorKind::ExpectedAttr, 1, 3));
    assert_eq!(only_error("# fn f() {}"), (QccErrorKind::ExpectedAttr, 1, 3));
    assert_eq!(only_error("#[deter fn f() {}"), (QccErrorKind::ExpectedAttr, 1, 9));
    assert_eq!(only_error("#[deter] x"), (QccErrorKind::ExpectedFn, 1, 10));
}

#[test]
fn attributes_are_kept_in_order() {
    let (parsed, _) = parse("#![nondeter, deter] fn f() {}\n#[deter,] fn g() {}");
    let ast = parsed.unwrap();
    assert_eq!(ast.modules[0].functions[0].attrs.to_string(), "nondeter, deter");
    assert_eq!(ast.modules[0].functions[1].attrs.to_string(), "deter");
}

#[test]
fn statement_errors() {
    assert_eq!(only_error("fn f() { let }"), (QccErrorKind::ExpectedLet, 1, 14));
    assert_eq!(only_error("fn f() { let x 1 }"), (QccErrorKind::ExpectedAssign, 1, 16));
    assert_eq!(only_error("fn f() { let x: = 1 }"), (QccErrorKind::ExpectedType, 1, 17));
    assert_eq!(only_error("fn f() { let x: int = 1 }"), (QccErrorKind::UnexpectedType, 1, 17));
    assert_eq!(only_error("fn f() { let x = }"), (QccErrorKind::ExpectedExpr, 1, 18));
    assert_eq!(only_error("fn f() { x y }"), (QccErrorKind::ExpectedFnBodyEnd, 1, 12));
    assert_eq!(only_error("fn f() { return }"), (QccErrorKind::ExpectedExpr, 1, 17));
    assert_eq!(only_error("fn f() { if x y }"), (QccErrorKind::ExpectedFnBody, 1, 15));
    assert_eq!(only_error("fn f() { if { } }"), (QccErrorKind::ExpectedExpr, 1, 13));
    assert_eq!(only_error("fn f() { if x { } else y }"), (QccErrorKind::ExpectedFnBody, 1, 24));
}

#[test]
fn expression_errors() {
    assert_eq!(only_error("fn f() { g(a b) }"), (QccErrorKind::ExpectedComma, 1, 14));
    assert_eq!(only_error("fn f() { g(a, ) }"), (QccErrorKind::ExpectedExpr, 1, 15));
    assert_eq!(only_error("fn f() { g(a"), (QccErrorKind::ExpectedParenth, 1, 13));
    assert_eq!(only_error("fn f() { (a }"), (QccErrorKind::ExpectedParenth, 1, 13));
    assert_eq!(only_error("fn f() { () }"), (QccErrorKind::ExpectedExpr, 1, 11));
    assert_eq!(only_error("fn f() { [a b] }"), (QccErrorKind::ExpectedComma, 1, 13));
    assert_eq!(only_error("fn f() { [a"), (QccErrorKind::ExpectedClosedBracket, 1, 12));
    assert_eq!(only_error("fn f() { 1.2.3 }"), (QccErrorKind::UnexpectedDigit, 1, 10));
    assert_eq!(only_error("fn f() { a + }"), (QccErrorKind::ExpectedExpr, 1, 14));
    assert_eq!(only_error("fn f() { - }"), (QccErrorKind::ExpectedExpr, 1, 12));
    assert_eq!(only_error("fn f() { let q = 0q(1, a) }"), (QccErrorKind::ExpectedAmpinQbit, 1, 18));
    assert_eq!(only_error("fn f() { let q = 0q(1 0) }"), (QccErrorKind::ExpectedComma, 1, 18));
    assert_eq!(only_error("fn f() { let q = 0q1, 0) }"), (QccErrorKind::ExpectedParenth, 1, 18));
}

#[test]
fn module_errors() {
    assert_eq!(only_error("module m x"), (QccErrorKind::ExpectedMod, 1, 10));
    assert_eq!(only_error("module"), (QccErrorKind::ExpectedMod, 1, 7));
    assert_eq!(only_error("module m { x }"), (QccErrorKind::ExpectedFn, 1, 12));
    assert_eq!(only_error("module m {"), (QccErrorKind::ExpectedFn, 1, 11));
    assert_eq!(
        only_error("module m { fn f() {} fn f() {} }"),
        (QccErrorKind::RedefinedFunction, 1, 32)
    );
}

#[test]
fn modules_of_a_file_come_before_the_module_of_the_file() {
    let (parsed, reports) = parse("fn main() {}\nmodule a_b { fn f() {} }\nmodule { }\n");
    assert_eq!(reports, vec![]);
    let ast = parsed.unwrap();
    let names: Vec<String> = ast.modules.iter().map(|m| m.get_name()).collect();
    assert_eq!(names, vec!["a_b", "unnamed", "m"]);
    assert_eq!(ast.modules[0].functions.len(), 1);
    assert_eq!(ast.modules[2].functions.len(), 1);
}

#[test]
fn nested_module_is_named_and_placed() {
    let (parsed, reports) = parse("\n  module lib { fn f() {} fn g() {} }");
    assert_eq!(reports, vec![]);
    let ast = parsed.unwrap();
    assert_eq!(ast.modules[0].get_name(), "lib");
    assert_eq!(ast.modules[0].location.to_string(), "@m.ql:2:3");
    assert_eq!(ast.modules[0].functions.len(), 2);
    assert_eq!(ast.modules[1].get_name(), "m");
    assert_eq!(ast.modules[1].location.to_string(), "@m.ql:1:1");
}

#[test]
fn import_errors() {
    assert_eq!(only_error("import ;"), (QccErrorKind::ExpectedMod, 0, 0));
    assert_eq!(only_error("import a:b;"), (QccErrorKind::ExpectedColon, 0, 0));
    assert_eq!(only_error("import a b;"), (QccErrorKind::ExpectedColon, 0, 0));
    assert_eq!(only_error("import a::;"), (QccErrorKind::ExpectedFnName, 0, 0));
    assert_eq!(only_error("import a::b"), (QccErrorKind::ExpectedSemicolon, 0, 0));
    assert_eq!(only_error("import nolib::f;"), (QccErrorKind::UnknownModName, 1, 8));
    assert_eq!(
        only_error("module lib { fn f() {} }\nimport lib::g;"),
        (QccErrorKind::UnknownImport, 2, 13)
    );
}

#[test]
fn import_from_a_module_of_the_same_file() {
    let (parsed, reports) = parse("module lib { fn f() {} }\nimport lib::f;\nfn main() { f() }");
    assert_eq!(reports, vec![]);
    let ast = parsed.unwrap();
    assert_eq!(ast.modules[1].functions[0].body[0].to_string(), "lib$f()");
}

#[test]
fn second_function_of_a_name_is_refused() {
    let (parsed, reports) = parse("fn f() {}\nfn g() {}\nfn f() { 1 }\n");
    assert_eq!(parsed.err(), Some(QccError(QccErrorKind::ParseError)));
    assert_eq!(reports, vec![(QccErrorKind::RedefinedFunction, 3, 1)]);
}

#[test]
fn call_of_an_unknown_function_is_reported() {
    assert_eq!(only_error("fn main() {\n    let x = 1 + g(2);\n}"), (QccErrorKind::UnknownImport, 2, 17));
}

#[test]
fn separator_cannot_be_written_in_a_source() {
    let (parsed, reports) = parse("fn main() { lib$f() }");
    assert_eq!(parsed.err(), Some(QccError(QccErrorKind::LexerError)));
    assert_eq!(reports, vec![(QccErrorKind::LexerError, 1, 16)]);
}

#[test]
fn byte_that_starts_no_token_is_shown_in_its_line() {
    let mut parser = Parser::new(vec!["m.ql"], Some(b"fn f() {\n  let x = @;\n}\n".to_vec()))
        .unwrap()
        .unwrap();
    assert_eq!(parser.parse(&String::from("m.ql")).err(), Some(QccError(QccErrorKind::LexerError)));
    let reports = parser.diagnostics();
    assert_eq!(reports.len(), 1);
    assert_eq!(
        reports[0].to_string(),
        "\x1b[99;1mqcc\x1b[0m: \x1b[91;1merror:\x1b[0m lexer failed to tokenize @m.ql:2:11\n\t2\t  let x = @;\n\t \t          ^\n"
    );
}

#[test]
fn parsing_goes_on_behind_an_error() {
    let (parsed, reports) = parse("fn () {}\nfn g(x) {}\nfn h() { 1 }\n");
    assert_eq!(parsed.err(), Some(QccError(QccErrorKind::ParseError)));
    assert_eq!(
        reports,
        vec![(QccErrorKind::ExpectedFnName, 1, 4), (QccErrorKind::ExpectedParamType, 2, 7)]
    );
}

#[test]
fn stray_tokens_are_passed_over() {
    let (parsed, reports) = parse("; , x 1 } fn f() {} ) )");
    assert_eq!(reports, vec![]);
    assert_eq!(parsed.unwrap().modules[0].functions.len(), 1);
}

#[test]
fn only_ql_files_are_parsed() {
    let mut parser = Parser::new(vec!["m.txt"], Some(b"fn f() {}".to_vec())).unwrap().unwrap();
    assert_eq!(parser.parse(&String::from("m.txt")).err(), Some(QccError(QccErrorKind::ParseError)));
    assert_eq!(parser.diagnostics().len(), 0);
    assert_eq!(parser.parse(&String::from("ql")).err(), Some(QccError(QccErrorKind::ParseError)));
}

#[test]
fn module_is_named_after_the_file() {
    let mut parser = Parser::new(vec!["a/b/my-file.v2.ql"], Some(Vec::new())).unwrap().unwrap();
    let ast = parser.parse(&String::from("a/b/my-file.v2.ql")).unwrap();
    assert_eq!(ast.modules[0].get_name(), "my_file_v2");
    assert_eq!(ast.modules[0].location.to_string(), "@my-file.v2.ql:1:1");
}

#[test]
fn expressions() {
    assert_eq!(body("fn f(a: f64, b: f64, c: f64) { a + b * c }"), ["(a + (b * c))"]);
    assert_eq!(body("fn f(a: f64, b: f64, c: f64) { (a + b) * c }"), ["((a + b) * c)"]);
    assert_eq!(body("fn f(a: f64) { a * f(a) + a }"), ["((a * f(a)) + a)"]);
    assert_eq!(body("fn f(a: f64) { -a }"), ["-a"]);
    assert_eq!(body("fn f(a: f64) { -a * 2 }"), ["(-a * 2)"]);
    assert_eq!(body("fn f() { - 42 }"), ["(0 - 42)"]);
    assert_eq!(body("fn f() { -42 }"), ["-42"]);
    assert_eq!(body("fn f(a: f64) { -(a + 1) }"), ["(0 - (a + 1))"]);
    assert_eq!(body("fn f(a: f64) { -f(a) }"), ["(0 - f(a))"]);
    assert_eq!(body("fn f() { -[1, 2] }"), ["(0 - [1, 2])"]);
    assert_eq!(body("fn f() { true == false }"), ["(true == false)"]);
    assert_eq!(body("fn f() { 1 < 2 }"), ["(1 < 2)"]);
    assert_eq!(body("fn f() { [1, [2, 3], []] }"), ["[1, [2, 3], []]"]);
    assert_eq!(body("fn f() { f() }"), ["f()"]);
    assert_eq!(body("fn f() { f(1, f(), [2]) }"), ["f(1, f(), [2])"]);
    assert_eq!(body("fn f() { 0q(1,0) }"), ["0q1_0"]);
    assert_eq!(body("fn f() { 2 * 0q(1,0) }"), ["(2 * 0q1_0)"]);
}

#[test]
fn statements() {
    assert_eq!(body("fn f() { let x = 1; let y: f64 = 2;;; x }"), ["x = 1", "y: float64 = 2", "x"]);
    assert_eq!(body("fn f() { return 1; return 2 }"), ["1", "2"]);
    assert_eq!(body("fn f() { let x = 1 let y = x x; }"), ["x = 1", "y = x", "x"]);
    assert_eq!(body("fn f() { }"), Vec::<String>::new());
    assert_eq!(
        body("fn f(b: bit) { if b { 1 } }"),
        ["b\n      |_ True\n        |_ 1\n"]
    );
    assert_eq!(
        body("fn f(b: bit) { if b { } else { 1; } }"),
        ["b\n      |_ False\n        |_ 1\n"]
    );
    assert_eq!(
        body("fn f(b: bit) { if b { return 1; } else if b { 2 } 3 }"),
        [
            "b\n      |_ True\n        |_ 1\n      |_ False\n        |_ b\n      |_ True\n        |_ 2\n\n",
            "3"
        ]
    );
}

#[test]
fn function_is_parsed_with_all_its_parts() {
    let (parsed, _) = parse("#[nondeter]\nfn toss(q: qbit, r: rad,): !bit { q }");
    let ast = parsed.unwrap();
    let f = &ast.modules[0].functions[0];
    assert_eq!(f.get_name(), "toss");
    assert_eq!(f.get_loc().to_string(), "@m.ql:2:4");
    assert_eq!(f.get_input_type(), &vec![Type::Qbit, Type::Rad]);
    assert_eq!(*f.get_output_type(), Type::Bit);
    assert_eq!(f.get_attrs().to_string(), "nondeter");
    assert_eq!(f.iter_params().len(), 2);
    assert_eq!(f.iter_params()[1].to_string(), "r: radians");
    assert_eq!(f.instructions().len(), 1);
    assert!(matches!(f.last(), Some(Expr::Var(_))));
    assert_eq!(
        f.to_string(),
        "  |_ fn [[nondeter]] toss (q: qubit, r: radians) : bit\t\t// @m.ql:2:4\n    |_ q\n\n"
    );
}

#[test]
fn single_productions() {
    let tokens = qcc::lexer::Lexer::new(b"x + 1 ; f(2) let y = 3 return 4".to_vec(), String::from("m.ql"))
        .tokenize()
        .unwrap();
    let e = Parser::parse_binary_expr(&tokens, 0);
    assert_eq!(e.value.unwrap().to_string(), "(x + 1)");
    assert_eq!(e.next, 3);
    let e = Parser::parse_binary_expr(&tokens, 3);
    assert_eq!(e.value.err(), Some(QccErrorKind::ExpectedExpr));
    assert_eq!(e.next, 3);
    let e = Parser::parse_binary_expr_with_lhs(&tokens, 1, Parser::parse_expr(&tokens, 2).value.unwrap());
    assert_eq!(e.value.unwrap().to_string(), "(1 + 1)");
    let e = Parser::parse_binary_expr_with_lhs(&tokens, 0, Parser::parse_expr(&tokens, 2).value.unwrap());
    assert_eq!(e.value.err(), Some(QccErrorKind::ExpectedOpcode));
    let e = Parser::parse_fn_call(&tokens, 4);
    assert_eq!(e.value.unwrap().to_string(), "f(2)");
    assert_eq!(e.next, 8);
    let e = Parser::parse_fn_call(&tokens, 3);
    assert_eq!(e.value.err(), Some(QccErrorKind::ExpectedFn));
    let e = Parser::parse_fn_call(&tokens, 0);
    assert_eq!(e.value.err(), Some(QccErrorKind::ExpectedParenth));
    let e = Parser::parse_let(&tokens, 8);
    assert_eq!(e.value.unwrap().to_string(), "y = 3");
    assert_eq!(e.next, 12);
    let e = Parser::parse_return(&tokens, 12);
    assert_eq!(e.value.unwrap().to_string(), "4");
    assert_eq!(e.next, 14);
    let e = Parser::parse_return(&tokens, 0);
    assert_eq!(e.value.err(), Some(QccErrorKind::ExpectedExpr));
    let e = Parser::parse_tensor(&tokens, 0);
    assert_eq!(e.value.err(), Some(QccErrorKind::ExpectedOpenBracket));
    let e = Parser::parse_conditional(&tokens, 0);
    assert_eq!(e.value.err(), Some(QccErrorKind::ExpectedExpr));
    let e = Parser::parse_module(&tokens, 0);
    assert_eq!(e.value.err(), Some(QccErrorKind::ExpectedMod));
    let e = Parser::parse_import(&tokens, 0);
    assert_eq!(e.value.err(), Some(QccErrorKind::ExpectedMod));
    let e = Parser::parse_attributes(&tokens, 0);
    assert_eq!(e.value.err(), Some(QccErrorKind::ExpectedAttr));
    let e = Parser::parse_function(&tokens, 0);
    assert_eq!(e.value.err(), Some(QccErrorKind::ExpectedFn));
    let e = Parser::parse_block(&tokens, 0);
    assert_eq!(e.value.err(), Some(QccErrorKind::ExpectedFnBody));
}

#[test]
fn imports_are_listed_in_order() {
    let mut parser = Parser::new(
        vec!["m.ql"],
        Some(b"import b::f;\nfn g() {}\nimport a::h; import ; import b::k;".to_vec()),
    )
    .unwrap()
    .unwrap();
    assert_eq!(parser.imports(), Ok(vec![String::from("b"), String::from("a"), String::from("b")]));
    let mut parser = Parser::new(vec!["m.ql"], Some(b"import $".to_vec())).unwrap().unwrap();
    assert_eq!(parser.imports(), Err(QccError(QccErrorKind::LexerError)));
}

#[test]
fn diagnostic_is_printed_with_the_line_and_a_caret() {
    let mut parser = Parser::new(vec!["dir/m.ql"], Some(b"// first line\nfn f(x) {}\n".to_vec()))
        .unwrap()
        .unwrap();
    let _ = parser.parse(&String::from("dir/m.ql"));
    let reports = parser.diagnostics();
    assert_eq!(reports.len(), 1);
    assert_eq!(reports[0].line, "fn f(x) {}\n");
    assert_eq!(
        reports[0].to_string(),
        "\x1b[99;1mqcc\x1b[0m: \x1b[91;1merror:\x1b[0m expected parameter type @m.ql:2:7\n\t2\tfn f(x) {}\n\t \t      ^\n"
    );
}
