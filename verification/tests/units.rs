use qcc::analyzer::config::AnalyzerConfig;
use qcc::ast::{Expr, FunctionAST, Opcode, VarAST};
use qcc::attributes::{Attribute, Attributes};
use qcc::codegen::qasm::{QasmGate, QasmModule, Qreg};
use qcc::inference::infer;
use qcc::types::Type;
use qcc::config::Config;
use qcc::error::{QccError, QccErrorKind, QccErrorLoc};
use qcc::lexer::Location;
use qcc::parser::Parser;
use qcc::utils::{eq_all, eq_any};

#[test]
fn check_new_analyzer_config() {
    let analyzer_config = AnalyzerConfig::new();
    assert_eq!(
        analyzer_config.to_string(),
        "\nAnalyzer Configuration\n----------------------\n: false"
    );
}

#[test]
fn check_analyzer_config() {
    let analyzer_config = AnalyzerConfig {
        src: "tmp".into(),
        status: true,
    };
    assert_eq!(
        analyzer_config.to_string(),
        "
Analyzer Configuration
----------------------
tmp: true"
    );
}

#[test]
fn check_var_ast() {
    let x = VarAST::new(String::from("x"), Location::default());
    assert!(x.is_typed() == false);
    assert!(*x.name() == String::from("x"));
    assert!(*x.location() == Location::new("unknown", 0, 0));
}

#[test]
fn check_attrs() {
    let s = "#[deter, nondeter]";
    let attrs = Attributes::from_str(s).unwrap();
    assert_eq!(attrs, Attributes(vec![Attribute::Deter, Attribute::NonDeter]));

    let s = "#[nondeter, unknown]";
    let err = Attributes::from_str(s).err().unwrap();
    assert!(err == QccErrorLoc::from((QccErrorKind::UnexpectedAttr, Location::new("", 0, 12))));
}

#[test]
fn check_qasm_backend() {
    let q = Qreg::new("a", 8);
    assert!(q.get_type() == "q8");
    let qreg_a = Qreg::new("a", 8);
    let qreg_b = Qreg::new("b", 8);
    let qgate = QasmGate::new("cu1", &["lambda", "theta"], vec![qreg_a, qreg_b]);
    println!("{}", qgate.to_string());
}

#[test]
fn check_config() {
    let config = Config::new();
    assert!(!config.print_ast);
    assert!(!config.print_ast_only);
    assert!(!config.print_qasm);
    assert_eq!(
        config.analyzer.to_string(),
        "
Analyzer Configuration
----------------------
: false"
    );

    assert_eq!(
        config.optimizer.to_string(),
        "
Optimizer Configuration
-----------------------
Stage: O0"
    );

    assert_eq!(
        config.to_string(),
        "
Analyzer Configuration
----------------------
: false

Optimizer Configuration
-----------------------
Stage: O0"
    );
}

#[test]
fn check_errors() {
    let e1: Result<(), QccError> = Err(QccError(QccErrorKind::UnexpectedAttr));
    match e1 {
        Ok(_) => unreachable!(),
        Err(ref e) => assert_eq!(
            e.to_string(),
            "\x1b[99;1mqcc\x1b[0m: \x1b[91;1merror:\x1b[0m unexpected attribute"
        ),
    }

    let e2: Result<(), QccError> = Err(QccError(QccErrorKind::NoFile));
    match e2 {
        Ok(_) => unreachable!(),
        Err(ref e) => assert_eq!(
            e.to_string(),
            "\x1b[99;1mqcc\x1b[0m: \x1b[91;1merror:\x1b[0m no such file"
        ),
    }
}

#[test]
fn check_wrong_parser_uses() {
    let path = "non_existing_src.ql";
    let args = vec![path];
    match Parser::new(args, None) {
        Ok(_) => unreachable!(),
        Err(err) => assert_eq!(err, QccErrorKind::NoFile.into()),
    }
}

#[test]
fn check_assert_eq_any() {
    assert!(eq_any(&true, &[false, true]));
    assert!(eq_any(&false, &[true, false]));
}

#[test]
fn check_assert_eq_all() {
    assert!(eq_all(&true, &[true, true]));
    assert!(eq_all(&false, &[false, false]));
}

#[test]
fn check_function_ast() {
    let x = VarAST::new(String::from("x"), Default::default());
    let y = VarAST::new(String::from("y"), Default::default());
    let z = VarAST::new(String::from("z"), Default::default());
    let w = VarAST::new(String::from("w"), Default::default());

    // Example:
    //  fn foo(x, y) {
    //    let z = x * y;
    //    let w = z + x;
    //    return w;
    //  }
    let let_z = Expr::Let(
        z.clone(),
        Box::new(Expr::BinaryExpr(
            Box::new(Expr::Var(x.clone())),
            Opcode::Mul,
            Box::new(Expr::Var(y.clone())),
        )),
    );
    let let_w = Expr::Let(
        w.clone(),
        Box::new(Expr::BinaryExpr(
            Box::new(Expr::Var(z)),
            Opcode::Add,
            Box::new(Expr::Var(x.clone())),
        )),
    );
    let ret_w = Expr::Var(w);

    let foo = FunctionAST::new(
        String::from("foo"),
        Default::default(),
        vec![x, y],
        vec![],
        Type::Bottom,
        Attributes::default(),
        vec![let_z, let_w, ret_w],
    );
    assert!(foo.last().is_some());
}

const TEST1: &str = "// a first program
#[nondeter]
fn toss(): qbit {
    let zero = 0q(1, 0);
    zero
}

fn main() {
    let choice = toss();
}
";

#[test]
fn check_qasm_translate() {
    let mut parser = Parser::new(vec!["tests/test1.ql"], Some(TEST1.as_bytes().to_vec()))
        .unwrap()
        .unwrap();
    let config = parser.get_config();
    let ast = parser.parse(&config.analyzer.src).unwrap();
    let ir = QasmModule::translate(ast).unwrap();
    println!("{}", ir.to_string());
}

#[test]
fn check_main() {
    let path = "./tests/test1.ql";
    let args = vec![path, "--analyze"];
    let mut parser = Parser::new(args, Some(TEST1.as_bytes().to_vec())).unwrap().unwrap();
    let config = parser.get_config();
    let qast = parser.parse(&config.analyzer.src).unwrap();
    println!("{}", qast.to_string());
}

#[test]
fn analyzer_check_analyzer() {
    let args = vec!["tests/test1.ql"];
    if let Some(config) = Parser::parse_cmdline(args.clone()).unwrap() {
        let mut parser = Parser::new(args, Some(TEST1.as_bytes().to_vec())).unwrap().unwrap();
        let ast = parser.parse(&config.analyzer.src).unwrap();
        println!("{}", ast.to_string());
        assert!(config.analyzer.analyze(&ast).is_ok());
    }
}

#[test]
fn mod_check_analyzer() {
    let args = vec!["tests/test1.ql"];

    let parser = Parser::new(args, Some(TEST1.as_bytes().to_vec()));
    assert!(parser.is_ok());
    let parser = parser.unwrap();
    assert!(parser.is_some());
    let mut parser = parser.unwrap();

    let config = parser.get_config();
    let qast = parser.parse(&config.analyzer.src);
    assert!(qast.is_ok());
    let qast = qast.unwrap();
    assert!(config.analyzer.analyze(&qast).is_ok());
}

#[test]
fn compile() {
    let sources = [
        ("./tests/test1.ql", TEST1),
        ("./tests/broken.ql", "fn () {}"),
        ("./tests/untyped.ql", "fn f() { y }"),
        ("./tests/bytes.ql", "fn f() { $ }"),
    ];
    for (path, text) in sources {
        let mut parser = Parser::new(vec![path], Some(text.as_bytes().to_vec())).unwrap().unwrap();
        let config = parser.get_config();

        match parser.parse(&config.analyzer.src) {
            Ok(mut ast) => {
                match infer(&mut ast) {
                    Ok(_) => {}
                    Err(err) => {
                        assert!(eq_any(&err, &[QccErrorKind::TypeError.into()]));
                        continue;
                    }
                }

                match QasmModule::translate(ast) {
                    Ok(_) => {}
                    Err(err) => assert!(eq_any(&err, &[QccErrorKind::TranslationError.into()])),
                }
            }

            Err(err) => assert!(eq_any(
                &err,
                &[
                    QccErrorKind::NoFile.into(),
                    QccErrorKind::CmdlineErr.into(),
                    QccErrorKind::UnknownImport.into(),
                    QccErrorKind::LexerError.into(),
                    QccErrorKind::ParseError.into()
                ]
            )),
        }
    }
}

#[test]
fn analyzer() {
    let sources = [("./tests/test1.ql", TEST1), ("./tests/broken.ql", "fn () {}")];
    for (path, text) in sources {
        let args = vec![path, "--analyze"];
        let mut parser = Parser::new(args, Some(text.as_bytes().to_vec())).unwrap().unwrap();
        let config = parser.get_config();
        assert!(config.analyzer.status);

        match parser.parse(&config.analyzer.src) {
            Ok(ast) => {
                assert!(config.analyzer.analyze(&ast).is_ok());
            }
            Err(err) => assert!(eq_any(
                &err,
                &[
                    QccErrorKind::NoFile.into(),
                    QccErrorKind::CmdlineErr.into(),
                    QccErrorKind::UnknownImport.into(),
                    QccErrorKind::LexerError.into(),
                    QccErrorKind::ParseError.into()
                ]
            )),
        }
    }
}

#[test]
fn check_package() {
    let math = "fn half(x: f64): f64 {\n    x / 2\n}\n";
    let main = "import math::half;\n\n#[nondeter]\nfn toss(): qbit {\n    let turn = half(3.14);\n    turn * 0q(1, 0)\n}\n";

    let mut library = Parser::new(vec!["./tests/package/math.ql"], Some(math.as_bytes().to_vec()))
        .unwrap()
        .unwrap();
    let known = library.parse(&String::from("./tests/package/math.ql")).unwrap();

    let mut parser = Parser::new(vec!["./tests/package/toss.ql"], Some(main.as_bytes().to_vec()))
        .unwrap()
        .unwrap();
    parser.preload(known);
    let config = parser.get_config();

    match parser.parse(&config.analyzer.src) {
        Ok(mut ast) => {
            match infer(&mut ast) {
                Ok(_) => {}
                Err(err) => {
                    assert!(eq_any(&err, &[QccErrorKind::TypeError.into()]));
                }
            }

            match QasmModule::translate(ast) {
                Ok(ir) => assert_eq!(ir.gates.len(), 1),
                Err(err) => assert!(eq_any(&err, &[QccErrorKind::TranslationError.into()])),
            }
        }

        Err(err) => assert!(eq_any(&err, &[QccErrorKind::NoFile.into()])),
    }
}
