use qcc::ast::Qast;
use qcc::error::{QccError, QccErrorKind};
use qcc::inference::infer;
use qcc::parser::Parser;

const COMPLEX_EXPR_LIB: &str = "// a small library of functions
fn bar(): qbit {
    0q(1, 0)
}

fn sin(r: f64): f64 {
    r / 180
}

fn cos(r: f64): f64 {
    r / 90
}
";

const COMPLEX_EXPR_LIB_AST: &str = "|_ complex_expr_lib\t\t\t// @complex_expr_lib.ql:1:1
  |_ fn complex_expr_lib$bar () : qubit\t\t// @complex_expr_lib.ql:2:4
    |_ 0q1_0

  |_ fn complex_expr_lib$sin (r: float64) : float64\t\t// @complex_expr_lib.ql:6:4
    |_ (r: float64 / 180)

  |_ fn complex_expr_lib$cos (r: float64) : float64\t\t// @complex_expr_lib.ql:10:4
    |_ (r: float64 / 90)

";

/// Parses one file; `known` are the programs of the files it imports from.
fn parse_file(path: &str, text: &str, known: Option<Qast>) -> Result<Qast, QccError> {
    let mut parser = Parser::new(vec![path], Some(text.as_bytes().to_vec()))?.unwrap();
    if let Some(program) = known {
        parser.preload(program);
    }
    let config = parser.get_config();
    let parsed = parser.parse(&config.analyzer.src);
    for d in parser.diagnostics() {
        println!("{}", d.to_string());
    }
    parsed
}

/// Parses a file and the library it imports from, infers the types, and
/// returns the program as it is printed.
fn compile(path: &str, text: &str, library: Option<(&str, &str)>) -> String {
    let known = match library {
        Some((lib_path, lib_text)) => Some(parse_file(lib_path, lib_text, None).unwrap()),
        None => None,
    };
    let mut ast = parse_file(path, text, known).unwrap();
    match infer(&mut ast) {
        Ok(_) => ast.to_string(),
        Err(err) => panic!("{}: {}", path, err.to_string()),
    }
}

fn check(path: &str, text: &str, library: Option<(&str, &str)>, repr: &str) {
    println!(">> Testing {} ...", path);
    assert_eq!(compile(path, text, library), repr, "AST did not match for {}", path);
}

#[test]
fn test_ast_gen() {
    let lib = Some(("tests/complex_expr_lib.ql", COMPLEX_EXPR_LIB));

    check(
        "tests/complex_expr.ql",
        "import complex_expr_lib::sin;
import complex_expr_lib::cos;

#[nondeter]
fn new(b: bit): qbit {
    let q = 0q(1, 0);
    q
}


fn bar(x: f64, y: f64): f64 {
    (x + y) / 42
}

fn main() {
    let a = 3.14;
    let e0 = 1;
    let nonce = a;
    let e1 = e0;
    let f2 = bar((e0 * cos(a)) / nonce, -e1 * sin(a));
    f2
}
",
        lib,
        &format!(
            "{}{}",
            COMPLEX_EXPR_LIB_AST,
            "|_ complex_expr\t\t\t// @complex_expr.ql:1:1
  |_ fn [[nondeter]] complex_expr$new (b: bit) : qubit\t\t// @complex_expr.ql:5:4
    |_ q: qubit = 0q1_0
    |_ q: qubit

  |_ fn complex_expr$bar (x: float64, y: float64) : float64\t\t// @complex_expr.ql:11:4
    |_ ((x: float64 + y: float64) / 42)

  |_ fn complex_expr$main () : float64\t\t// @complex_expr.ql:15:4
    |_ a: float64 = 3.14
    |_ e0: float64 = 1
    |_ nonce: float64 = a: float64
    |_ e1: float64 = e0: float64
    |_ f2: float64 = complex_expr$bar: float64 (((e0: float64 * complex_expr_lib$cos: float64 (a: float64)) / nonce: float64), (-e1: float64 * complex_expr_lib$sin: float64 (a: float64)))
    |_ f2: float64

"
        ),
    );

    check(
        "tests/let_both_typed.ql",
        "fn foo(): qbit {
    let q: qbit = 0q(0, 1);
}


fn main() {
    let choice: qbit = foo();
    if choice == 0 {
    } else {
    }
}
",
        None,
        "|_ let_both_typed\t\t\t// @let_both_typed.ql:1:1
  |_ fn let_both_typed$foo () : qubit\t\t// @let_both_typed.ql:1:4
    |_ q: qubit = 0q0_1

  |_ fn let_both_typed$main () : <bottom>\t\t// @let_both_typed.ql:6:4
    |_ choice: qubit = let_both_typed$foo: qubit ()
    |_ (choice == 0)


",
    );

    check(
        "tests/no_eof.ql",
        "// this file does not end with a line feed
#[nondeter]     fn main(param: qbit): f64 { 0 }",
        None,
        "|_ no_eof\t\t\t// @no_eof.ql:1:1
  |_ fn [[nondeter]] no_eof$main (param: qubit) : float64\t\t// @no_eof.ql:2:20
    |_ 0

",
    );

    check(
        "tests/only_whitespaces_no_eof.ql",
        "   \n\t  \n      ",
        None,
        "|_ only_whitespaces_no_eof\t\t\t// @only_whitespaces_no_eof.ql:1:1\n",
    );

    check(
        "tests/qbit_float.ql",
        "fn foo(q0: qbit): qbit {
    let q1 = 2 * q0;
    q1
}

fn bar(q0: qbit): qbit {
    let q1 = q0 * 2;
    q1
}

fn main() {
    let x = foo();
    let y = bar();
}
",
        None,
        "|_ qbit_float\t\t\t// @qbit_float.ql:1:1
  |_ fn qbit_float$foo (q0: qubit) : qubit\t\t// @qbit_float.ql:1:4
    |_ q1: qubit = (2 * q0: qubit)
    |_ q1: qubit

  |_ fn qbit_float$bar (q0: qubit) : qubit\t\t// @qbit_float.ql:6:4
    |_ q1: qubit = (q0: qubit * 2)
    |_ q1: qubit

  |_ fn qbit_float$main () : qubit\t\t// @qbit_float.ql:11:4
    |_ x: qubit = qbit_float$foo: qubit ()
    |_ y: qubit = qbit_float$bar: qubit ()

",
    );

    check(
        "tests/tabbed_comments.ql",
        "module _foo {
\t// a comment behind a tab
\t\t// and one behind two
}
\t// and one more
",
        None,
        "|_ _foo\t\t\t// @tabbed_comments.ql:1:1
|_ tabbed_comments\t\t\t// @tabbed_comments.ql:1:1
",
    );

    check(
        "tests/tensors2.ql",
        "fn foo(x: f64): f64 {
    x
}

fn bar(x: f64): f64 {
    x
}

fn main() {
    let t1 = [[], []];
    let t2 = [[[], []], [[]]];
}

fn foo2() {
    let x = 42;
    let e0 = 2.718;
    let e1 = e0 * 2;
    let a = 0.707;
    let t1 = [];
    let t2 = [x];
    let t3 = [t2, t2];
    let t4 = [e0 * bar(a), -e1 * foo(a)];
    let t5 = [[]];
    let t7 = [[x]];
    let t8 = [[e0 * bar(a), -e1 * foo(a)], [e1 * foo(a), e0 * bar(a)]];
    let t6 = [[], []];
    let t9 = [[[], []], [[]]];
    t3
}
",
        None,
        "|_ tensors2\t\t\t// @tensors2.ql:1:1
  |_ fn tensors2$foo (x: float64) : float64\t\t// @tensors2.ql:1:4
    |_ x: float64

  |_ fn tensors2$bar (x: float64) : float64\t\t// @tensors2.ql:5:4
    |_ x: float64

  |_ fn tensors2$main () : <bottom>\t\t// @tensors2.ql:9:4
    |_ t1 = [[], []]
    |_ t2 = [[[], []], [[]]]

  |_ fn tensors2$foo2 () : float64\t\t// @tensors2.ql:14:4
    |_ x: float64 = 42
    |_ e0: float64 = 2.718
    |_ e1: float64 = (e0: float64 * 2)
    |_ a: float64 = 0.707
    |_ t1 = []
    |_ t2: float64 = [x: float64]
    |_ t3: float64 = [t2: float64, t2: float64]
    |_ t4: float64 = [(e0: float64 * tensors2$bar: float64 (a: float64)), (-e1: float64 * tensors2$foo: float64 (a: float64))]
    |_ t5 = [[]]
    |_ t7: float64 = [[x: float64]]
    |_ t8: float64 = [[(e0: float64 * tensors2$bar: float64 (a: float64)), (-e1: float64 * tensors2$foo: float64 (a: float64))], [(e1: float64 * tensors2$foo: float64 (a: float64)), (e0: float64 * tensors2$bar: float64 (a: float64))]]
    |_ t6 = [[], []]
    |_ t9 = [[[], []], [[]]]
    |_ t3: float64

",
    );

    check(
        "tests/test3.ql",
        "// nothing but a comment\n",
        None,
        "|_ test3\t\t\t// @test3.ql:1:1\n",
    );

    check(
        "tests/test4.ql",
        "// a comment\n\n// and another\n",
        None,
        "|_ test4\t\t\t// @test4.ql:1:1\n",
    );

    check(
        "tests/test9.ql",
        "fn main() { let x: f64 = -42 }",
        None,
        "|_ test9\t\t\t// @test9.ql:1:1
  |_ fn test9$main () : float64\t\t// @test9.ql:1:4
    |_ x: float64 = -42

",
    );

    check(
        "tests/test11.ql",
        "// a difference
//
fn main() {
    let x = 42;
    let y = x - 99;
    y
}
",
        None,
        "|_ test11\t\t\t// @test11.ql:1:1
  |_ fn test11$main () : float64\t\t// @test11.ql:3:4
    |_ x: float64 = 42
    |_ y: float64 = (x: float64 - 99)
    |_ y: float64

",
    );

    check(
        "tests/test12.ql",
        "fn create_new_state(b: bit): qbit {
    let q: qbit = b;
    q
}
",
        None,
        "|_ test12\t\t\t// @test12.ql:1:1
  |_ fn test12$create_new_state (b: bit) : qubit\t\t// @test12.ql:1:4
    |_ q: qubit = b: bit
    |_ q: qubit

",
    );

    check(
        "tests/test13.ql",
        "fn foo(transform: f64, q0: qbit): qbit {
    let tmp = transform * q0;
    transform * q0
}

fn main() {
    let choice = foo();
}
",
        None,
        "|_ test13\t\t\t// @test13.ql:1:1
  |_ fn test13$foo (transform: float64, q0: qubit) : qubit\t\t// @test13.ql:1:4
    |_ tmp: qubit = (transform: float64 * q0: qubit)
    |_ (transform: float64 * q0: qubit)

  |_ fn test13$main () : qubit\t\t// @test13.ql:6:4
    |_ choice: qubit = test13$foo: qubit ()

",
    );

    check(
        "tests/test_if.ql",
        "fn foo(): qbit {
    let x = 0q(0, 1);
    x
}

fn main() {
    let choice = foo();
    if choice == 0 {
        let x = 42;
    } else {
        let x = 2;
    }
    if 1 != 2 {
        let x = 42;
    } else {
        let x = 32;
    }
}
",
        None,
        "|_ test_if\t\t\t// @test_if.ql:1:1
  |_ fn test_if$foo () : qubit\t\t// @test_if.ql:1:4
    |_ x: qubit = 0q0_1
    |_ x: qubit

  |_ fn test_if$main () : float64\t\t// @test_if.ql:6:4
    |_ choice: qubit = test_if$foo: qubit ()
    |_ (choice == 0)
      |_ True
        |_ x: float64 = 42
      |_ False
        |_ x: float64 = 2

    |_ (1 != 2)
      |_ True
        |_ x: float64 = 42
      |_ False
        |_ x: float64 = 32


",
    );

    check(
        "tests/test_else_if.ql",
        "fn pseudo_random(): f64 {
    42
}

fn main() {
    let choice = pseudo_random();
    if choice == 0 {
        let x = 42;
    } else if choice == 1 {
        let x = 41;
    } else if choice == 2 {
        let x = 40;
    } else {
        let x = 0;
    }
}
",
        None,
        "|_ test_else_if\t\t\t// @test_else_if.ql:1:1
  |_ fn test_else_if$pseudo_random () : float64\t\t// @test_else_if.ql:1:4
    |_ 42

  |_ fn test_else_if$main () : float64\t\t// @test_else_if.ql:5:4
    |_ choice: float64 = test_else_if$pseudo_random: float64 ()
    |_ (choice == 0)
      |_ True
        |_ x: float64 = 42
      |_ False
        |_ (choice == 1)
      |_ True
        |_ x: float64 = 41
      |_ False
        |_ (choice == 2)
      |_ True
        |_ x: float64 = 40
      |_ False
        |_ x: float64 = 0




",
    );

    check(
        "tests/test_if_return_type.ql",
        "fn unfair_toss(b: bit): qbit {
    if b {
        0q(0, 1)
    } else {
        0q(1, 0)
    }
}

fn main() {
    let choice = unfair_toss(1);
}
",
        None,
        "|_ test_if_return_type\t\t\t// @test_if_return_type.ql:1:1
  |_ fn test_if_return_type$unfair_toss (b: bit) : qubit\t\t// @test_if_return_type.ql:1:4
    |_ b
      |_ True
        |_ 0q0_1
      |_ False
        |_ 0q1_0


  |_ fn test_if_return_type$main () : qubit\t\t// @test_if_return_type.ql:9:4
    |_ choice: qubit = test_if_return_type$unfair_toss: qubit (1)

",
    );

    check(
        "tests/test_binary_expressions.ql",
        "fn main() {
    let x = 1 != 2;
    let y = 3 == 3;
    let b0 = 1 < 2;
    let b1 = 2 > 3;
    let b2 = 1 <= 2;
    let b3 = 4 >= 5;
    let a0 = x < y;
    let a1 = x > y;
    let a2 = x <= y;
    let a3 = x >= y;
    let w = a0 == a0;
    let z = a0 != a1;
    let mix0 = a0 == 1;
    let mix1 = 1 != a0;
    let mix2 = a0 < 1;
    let mix3 = 1 > a0;
    let mix4 = a0 <= 1;
    let mix5 = 1 >= w;
    a0 + a1 + a2 + a3
}
",
        None,
        "|_ test_binary_expressions\t\t\t// @test_binary_expressions.ql:1:1
  |_ fn test_binary_expressions$main () : float64\t\t// @test_binary_expressions.ql:1:4
    |_ x: float64 = (1 != 2)
    |_ y: float64 = (3 == 3)
    |_ b0: float64 = (1 < 2)
    |_ b1: float64 = (2 > 3)
    |_ b2: float64 = (1 <= 2)
    |_ b3: float64 = (4 >= 5)
    |_ a0: float64 = (x: float64 < y: float64)
    |_ a1: float64 = (x: float64 > y: float64)
    |_ a2: float64 = (x: float64 <= y: float64)
    |_ a3: float64 = (x: float64 >= y: float64)
    |_ w: float64 = (a0: float64 == a0: float64)
    |_ z: float64 = (a0: float64 != a1: float64)
    |_ mix0: float64 = (a0: float64 == 1)
    |_ mix1: float64 = (1 != a0: float64)
    |_ mix2: float64 = (a0: float64 < 1)
    |_ mix3: float64 = (1 > a0: float64)
    |_ mix4: float64 = (a0: float64 <= 1)
    |_ mix5: float64 = (1 >= w: float64)
    |_ (a0: float64 + (a1: float64 + (a2: float64 + a3: float64)))

",
    );

    check(
        "tests/test_empty.ql",
        "",
        None,
        "|_ test_empty\t\t\t// @test_empty.ql:1:1\n",
    );

    check(
        "tests/factorial.ql",
        "fn factorial(n: f64): f64 {
    if n <= 1 {
        1
    } else {
        n * factorial(n - 1)
    }
}
",
        None,
        "|_ factorial\t\t\t// @factorial.ql:1:1
  |_ fn factorial$factorial (n: float64) : float64\t\t// @factorial.ql:1:4
    |_ (n <= 1)
      |_ True
        |_ 1
      |_ False
        |_ (n: float64 * factorial$factorial: float64 ((n: float64 - 1)))


",
    );

    check(
        "tests/test_import.ql",
        "import complex_expr_lib::sin;


fn main() {
    let x = 2;
    sin(x)
}
",
        lib,
        &format!(
            "{}{}",
            COMPLEX_EXPR_LIB_AST,
            "|_ test_import\t\t\t// @test_import.ql:1:1
  |_ fn test_import$main () : float64\t\t// @test_import.ql:4:4
    |_ x: float64 = 2
    |_ complex_expr_lib$sin: float64 (x: float64)

"
        ),
    );
}

#[test]
fn unknown_import_is_reported_at_the_function_name() {
    let lib = parse_file("lib.ql", "fn sin(r: f64): f64 { r }\n", None).unwrap();
    let mut parser = Parser::new(vec!["main.ql"], Some(b"import lib::missing;\n".to_vec()))
        .unwrap()
        .unwrap();
    parser.preload(lib);
    let parsed = parser.parse(&String::from("main.ql"));
    assert!(parsed.is_err());
    assert_eq!(parsed.err().unwrap(), QccError(QccErrorKind::ParseError));
    let reports = parser.diagnostics();
    assert_eq!(reports.len(), 1);
    assert_eq!(reports[0].error.0, QccError(QccErrorKind::UnknownImport));
    assert_eq!(reports[0].error.1.row(), 1);
    assert_eq!(reports[0].error.1.col(), 13);
}
