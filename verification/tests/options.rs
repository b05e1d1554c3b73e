use qcc::config::Config;
use qcc::error::{QccError, QccErrorKind, QccErrorLoc};
use qcc::lexer::Location;
use qcc::optimizer::config::OptConfig;
use qcc::parser::{retarget, Parser};
use qcc::utils::{eq_all, eq_any, usage};

fn options(args: Vec<&str>) -> Config {
    Parser::parse_cmdline(args).unwrap().unwrap()
}

#[test]
fn source_path_and_default_output() {
    let c = options(vec!["dir/test.ql"]);
    assert_eq!(c.analyzer.src, "dir/test.ql");
    assert_eq!(c.optimizer.output, "dir/test.s");
    assert_eq!(c.optimizer.level, 0);
    assert!(!c.analyzer.status);
    assert!(!c.print_ast && !c.print_ast_only && !c.print_qasm && !c.debug);
    assert_eq!(c.version, Config::version());
}

#[test]
fn flags() {
    let c = options(vec!["--analyze", "a.ql", "--dump-ast", "--dump-qasm", "-O2"]);
    assert!(c.analyzer.status);
    assert!(c.print_ast);
    assert!(!c.print_ast_only);
    assert!(c.print_qasm);
    assert_eq!(c.optimizer.level, 2);
    assert!(options(vec!["a.ql", "--dump-ast-only"]).print_ast_only);
    assert_eq!(options(vec!["-O1", "a.ql"]).optimizer.level, 1);
    assert_eq!(options(vec!["-O1", "a.ql", "-O0"]).optimizer.level, 0);
    assert_eq!(options(vec!["-Og", "a.ql"]).optimizer.level, 3);
    assert_eq!(options(vec!["-Og", "a.ql"]).optimizer.to_string(), "\nOptimizer Configuration\n-----------------------\nStage: O3");
}

#[test]
fn check_output_directives() {
    let path = "./tests/test1.ql";
    let temp = "temp.s";

    let config = options(vec!["-o", temp, path]);
    assert_eq!(config.analyzer.src, path);
    assert_eq!(config.optimizer.output, temp);

    let config = options(vec![path, "-o", temp]);
    assert_eq!(config.analyzer.src, path);
    assert_eq!(config.optimizer.output, temp);

    let config = options(vec![path]);
    assert_eq!(config.analyzer.src, path);
    assert_eq!(config.optimizer.output, path.replace(".ql", ".s"));

    let config = options(vec![path, "-o", "-o", temp]);
    assert_eq!(config.analyzer.src, path);
    assert_eq!(config.optimizer.output, temp);

    let config = options(vec![path, "-o"]);
    assert_eq!(config.analyzer.src, path);
    assert_eq!(config.optimizer.output, path.replace(".ql", ".s"));
}

#[test]
fn cmdline() {
    for path in ["./tests/test1.ql", "./tests/factorial.ql"] {
        let args = vec![path, "-O2", "--analyze"];
        let config = Parser::parse_cmdline(args).unwrap().unwrap();
        assert_eq!(config.analyzer.src, path);
    }
}

#[test]
fn later_paths_replace_earlier_ones() {
    let c = options(vec!["a.ql", "b.ql"]);
    assert_eq!(c.analyzer.src, "b.ql");
    assert_eq!(c.optimizer.output, "b.s");
    let c = options(vec!["-o", "out.s", "a.ql", "b.ql"]);
    assert_eq!(c.analyzer.src, "b.ql");
    assert_eq!(c.optimizer.output, "out.s");
    let c = options(vec!["a.ql", "-o", "one.s", "-o", "two.s"]);
    assert_eq!(c.optimizer.output, "two.s");
}

#[test]
fn output_path_replaces_every_ql() {
    assert_eq!(retarget("a.ql"), "a.s");
    assert_eq!(retarget("a.qlb.ql.ql"), "a.sb.s.s");
    assert_eq!(retarget("dir.ql/file"), "dir.s/file");
    assert_eq!(retarget(".q.l.ql"), ".q.l.s");
    assert_eq!(retarget(""), "");
    assert_eq!(retarget("ql"), "ql");
}

#[test]
fn help_ends_the_reading() {
    assert!(Parser::parse_cmdline(vec!["--help"]).unwrap().is_none());
    assert!(Parser::parse_cmdline(vec!["-h"]).unwrap().is_none());
    assert!(Parser::parse_cmdline(vec!["a.ql", "-h", "--bogus"]).unwrap().is_none());
    assert!(Parser::new(vec!["--help"], None).unwrap().is_none());
    assert!(usage().starts_with("usage: qcc [options] <quale-file>\n    -h,--help     \tshow this page      \n"));
    assert!(usage().ends_with("    -o            \tcompiled output     \n"));
}

#[test]
fn command_line_errors() {
    let err = |args: Vec<&str>| Parser::parse_cmdline(args).err();
    assert_eq!(err(vec![]), Some(QccError(QccErrorKind::InvalidArgs)));
    assert_eq!(err(vec!["--bogus", "a.ql"]), Some(QccError(QccErrorKind::NoSuchArg)));
    assert_eq!(err(vec!["a.ql", "-x"]), Some(QccError(QccErrorKind::NoSuchArg)));
    assert_eq!(err(vec!["--bogus", "--help"]), Some(QccError(QccErrorKind::NoSuchArg)));
    assert_eq!(err(vec!["-"]), Some(QccError(QccErrorKind::NoSuchArg)));
    assert_eq!(err(vec!["--"]), Some(QccError(QccErrorKind::NoSuchArg)));
    assert_eq!(err(vec!["-O3", "a.ql"]), Some(QccError(QccErrorKind::NoSuchArg)));
    assert_eq!(err(vec!["--analyze"]), Some(QccError(QccErrorKind::NoFile)));
    assert_eq!(err(vec!["-o", "out.s"]), Some(QccError(QccErrorKind::NoFile)));
    assert_eq!(err(vec![""]), Some(QccError(QccErrorKind::NoFile)));
}

#[test]
fn session_needs_the_source() {
    assert_eq!(Parser::new(vec![], Some(Vec::new())).err(), Some(QccError(QccErrorKind::InvalidArgs)));
    assert_eq!(Parser::new(vec!["a.ql"], None).err(), Some(QccError(QccErrorKind::NoFile)));
    assert_eq!(Parser::new(vec!["-q"], Some(Vec::new())).err(), Some(QccError(QccErrorKind::NoSuchArg)));
    let parser = Parser::new(vec!["a.ql", "-O1"], Some(b"fn f() {}".to_vec())).unwrap().unwrap();
    assert_eq!(parser.get_config().analyzer.src, "a.ql");
    assert_eq!(parser.get_config().optimizer.level, 1);
    assert_eq!(parser.diagnostics().len(), 0);
    assert_eq!(OptConfig::new().level, 0);
    assert_eq!(OptConfig::default().output, "");
}

#[test]
fn every_kind_of_error_has_its_sentence() {
    let all = [
        (QccErrorKind::CmdlineErr, "cmdline error"),
        (QccErrorKind::InvalidArgs, "invalid number of arguments"),
        (QccErrorKind::NoSuchArg, "no such argument"),
        (QccErrorKind::NoFile, "no such file"),
        (QccErrorKind::ExpectedAttr, "expected attribute list as #[<attr>]"),
        (QccErrorKind::UnexpectedAttr, "unexpected attribute"),
        (QccErrorKind::LexerError, "lexer failed to tokenize"),
        (QccErrorKind::ParseError, "could not parse source"),
        (QccErrorKind::ExpectedFnForAttr, "expected a function for attribute"),
        (QccErrorKind::ExpectedFn, "expected a function"),
        (QccErrorKind::ExpectedFnName, "expected a function name after fn"),
        (QccErrorKind::ExpectedFnArgs, "expected function arguments in parenthesis"),
        (QccErrorKind::ExpectedParamType, "expected parameter type"),
        (QccErrorKind::ExpectedType, "expected a type"),
        (QccErrorKind::UnexpectedType, "unexpected type"),
        (QccErrorKind::ExpectedFnBody, "expected function body"),
        (QccErrorKind::ExpectedFnReturnType, "expected function return type"),
        (QccErrorKind::ExpectedFnBodyEnd, "expected end of function body"),
        (QccErrorKind::ExpectedMod, "expected a module"),
        (QccErrorKind::UnknownModName, "unknown module name given"),
        (QccErrorKind::ExpectedLet, "expected a let definition"),
        (QccErrorKind::ExpectedAssign, "expected an assignment operator"),
        (QccErrorKind::ExpectedSemicolon, "expected a ; to end line"),
        (QccErrorKind::UnexpectedStr, "unexpected string found"),
        (QccErrorKind::UnexpectedDigit, "unexpected digit found"),
        (QccErrorKind::ExpectedExpr, "expected an expression"),
        (QccErrorKind::ExpectedParenth, "expected parenthesis"),
        (QccErrorKind::UnexpectedExpr, "unexpected expression"),
        (QccErrorKind::UnknownOpcode, "unknown opcode"),
        (QccErrorKind::UnknownBinaryExpr, "unknown binary expression (unimplemented)"),
        (QccErrorKind::ExpectedOpcode, "expected one of the following operations: +,-,*,/"),
        (QccErrorKind::ExpectedComma, "expected a ',' comma"),
        (QccErrorKind::TypeError, "type error found"),
        (QccErrorKind::TypeMismatch, "a type mismatch is found"),
        (QccErrorKind::UnknownType, "type cannot be inferred"),
        (
            QccErrorKind::ExpectedQbit,
            "expected a quantum bit of the form `0q(<amplitude>, <amplitude>)`",
        ),
        (QccErrorKind::ExpectedAmpinQbit, "expected pairs of probability amplitudes"),
        (QccErrorKind::ExpectedColon, "expected colon `:`"),
        (QccErrorKind::UnknownImport, "unknown imported function"),
        (QccErrorKind::RedefinedFunction, "function is defined more than once"),
        (QccErrorKind::TranslationError, "translation failed"),
        (QccErrorKind::ExpectedOpenBracket, "expected '['"),
        (QccErrorKind::ExpectedClosedBracket, "expected ']'"),
    ];
    for (kind, sentence) in all {
        assert_eq!(kind.to_string(), sentence);
        assert_eq!(kind.message(), sentence);
        assert_eq!(
            QccError(kind).to_string(),
            format!("\x1b[99;1mqcc\x1b[0m: \x1b[91;1merror:\x1b[0m {}", sentence)
        );
    }
}

#[test]
fn errors_drop_their_place_at_the_boundary() {
    let placed = QccErrorLoc::new(QccErrorKind::ExpectedFn, Location::new("a/b.ql", 3, 7));
    assert_eq!(*placed.get_error(), QccError(QccErrorKind::ExpectedFn));
    assert_eq!(placed.get_loc(), Location::new("a/b.ql", 3, 7));
    assert_eq!(
        placed.to_string(),
        "\x1b[99;1mqcc\x1b[0m: \x1b[91;1merror:\x1b[0m expected a function @b.ql:3:7"
    );
    assert_eq!(QccError::from(placed.clone()), QccError(QccErrorKind::ExpectedFn));
    assert_eq!(QccError::from(QccErrorKind::NoFile), QccError(QccErrorKind::NoFile));
    assert!(QccError(QccErrorKind::NoFile).is(QccErrorKind::NoFile));
    assert!(!QccError(QccErrorKind::NoFile).is(QccErrorKind::ParseError));
    assert_eq!(
        QccError(QccErrorKind::NoSuchArg).report("--bogus"),
        "\x1b[99;1mqcc\x1b[0m: \x1b[91;1merror:\x1b[0m no such argument --bogus"
    );
    let unplaced = QccErrorLoc::unplaced(QccErrorKind::ExpectedMod);
    assert_eq!(unplaced.get_loc(), Location::default());
    assert!(unplaced == QccErrorLoc::from((QccError(QccErrorKind::ExpectedMod), Location::default())));
    assert!(unplaced != placed);
    assert!(QccErrorLoc::from((placed.clone(), Location::new("c.ql", 1, 1)))
        == QccErrorLoc::new(QccErrorKind::ExpectedFn, Location::new("c.ql", 1, 1)));
}

#[test]
fn place_of_an_error_is_filled_in_piece_by_piece() {
    let mut e = QccErrorLoc::new(QccErrorKind::UnexpectedAttr, Location::new("", 0, 12));
    e.set_row(4);
    assert_eq!(e.get_loc(), Location::new("", 4, 12));
    e.set_path("dir/file.ql");
    assert_eq!(e.get_loc(), Location::new("dir/file.ql", 4, 12));
    e.set_col(2);
    assert_eq!(e.get_loc(), Location::new("dir/file.ql", 4, 2));
    e.set_loc(Location::new("x.ql", 1, 1));
    assert_eq!(e.get_loc(), Location::new("x.ql", 1, 1));
    e.set_error(QccError(QccErrorKind::ExpectedAttr));
    assert_eq!(*e.get_error(), QccError(QccErrorKind::ExpectedAttr));
}

#[test]
fn report_has_the_caret_under_the_column() {
    let e = QccErrorLoc::new(QccErrorKind::ExpectedExpr, Location::new("f.ql", 12, 5));
    let head = "\x1b[99;1mqcc\x1b[0m: \x1b[91;1merror:\x1b[0m expected an expression @f.ql:12:5\n";
    assert_eq!(
        e.report("\tlet x = ;\n"),
        format!("{}\t12\t\tlet x = ;\n\t  \t\t   ^\n", head)
    );
    // a line that does not reach the column gets no caret
    assert_eq!(e.report("ab"), format!("{}\t12\tab\t  \t  ", head));
    assert_eq!(e.report(""), format!("{}\t12\t\t  \t", head));
    // the caret may stand under the last character
    assert_eq!(e.report("abcde"), format!("{}\t12\tabcde\t  \t    ^\n", head));
}

#[test]
fn one_of_and_all_of() {
    assert!(eq_any(&QccError(QccErrorKind::TypeError), &[QccError(QccErrorKind::TypeError)]));
    assert!(!eq_any(&QccError(QccErrorKind::TypeError), &[QccError(QccErrorKind::NoFile)]));
    assert!(!eq_any(&1u8, &[]));
    assert!(eq_all(&1u8, &[]));
    assert!(!eq_all(&true, &[true, false]));
    assert!(!eq_any(&true, &[false, false]));
}
