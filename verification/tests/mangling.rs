use qcc::ast::{Expr, FunctionAST, FunctionRef, ModuleAST, Qast};
use qcc::attributes::Attributes;
use qcc::codegen::qasm::{
    Creg, QasmComments, QasmGate, QasmInclude, QasmModule, QasmVersion, Qreg, QregDef, Qubit,
};
use qcc::inference::infer;
use qcc::lexer::Location;
use qcc::mangler::{
    has_separator, mangle, mangle_expr, mangle_expr_check, mangle_fns, mangle_module, mangle_name,
    rename_calls, sanitize, Rename,
};
use qcc::parser::Parser;
use qcc::types::Type;

fn parse_as(path: &str, text: &str, known: Option<Qast>) -> Qast {
    let mut parser = Parser::new(vec![path], Some(text.as_bytes().to_vec())).unwrap().unwrap();
    if let Some(program) = known {
        parser.preload(program);
    }
    parser.parse(&String::from(path)).unwrap()
}

fn call(name: &str, args: Vec<Expr>) -> Expr {
    Expr::FnCall(FunctionRef::new(String::from(name), Location::default()), args)
}

fn nested() -> Expr {
    // f(g(), [h(f())]) with a conditional behind it
    Expr::Conditional(
        Box::new(call("f", vec![call("g", vec![]), Expr::Tensor(vec![call("h", vec![call("f", vec![])])])])),
        vec![call("g", vec![])],
        vec![call("M$f", vec![])],
    )
}

#[test]
fn sanitize_keeps_letters_and_digits() {
    assert_eq!(sanitize(String::from("my-file.v2")), "my_file_v2");
    assert_eq!(sanitize(String::from("abcXYZ019")), "abcXYZ019");
    assert_eq!(sanitize(String::from("a$b c_d")), "a_b_c_d");
    assert_eq!(sanitize(String::from("")), "");
    // every byte of a character that takes several bytes is replaced
    assert_eq!(sanitize(String::from("é")), "__");
}

#[test]
fn sanitize_twice_is_sanitize_once() {
    for text in ["my-file.v2", "a$b c_d", "é", "plain", "", "__", "1+1=2"] {
        let once = sanitize(String::from(text));
        assert_eq!(sanitize(once.clone()), once);
        assert!(once.bytes().all(|b| b.is_ascii_alphanumeric() || b == b'_'));
    }
}

#[test]
fn mangled_name_has_the_module_before_the_function() {
    assert_eq!(mangle_name(&String::from("toss"), &String::from("main")), "toss$main");
    assert_eq!(mangle_name(&String::from(""), &String::from("")), "$");
    assert!(has_separator("toss$main"));
    assert!(has_separator("$"));
    assert!(!has_separator("toss_main"));
    assert!(!has_separator(""));
}

#[test]
fn rules_of_renaming() {
    let import = Rename::Import { module: String::from("lib"), name: String::from("f") };
    assert_eq!(import.apply(&String::from("f")), "lib$f");
    assert_eq!(import.apply(&String::from("g")), "g");
    let peers = Rename::Peers {
        module: String::from("M"),
        names: vec![String::from("f"), String::from("N$g")],
    };
    assert_eq!(peers.apply(&String::from("f")), "M$f");
    assert_eq!(peers.apply(&String::from("N$g")), "N$g");
    assert_eq!(peers.apply(&String::from("h")), "h");
    let prefix = Rename::Prefix { prefix: String::from("M$") };
    assert_eq!(prefix.apply(&String::from("f")), "M$f");
}

#[test]
fn calls_are_renamed_wherever_they_stand() {
    let text = |e: &Expr| e.to_string();
    let before = "f(g(), [h(f())])\n      |_ True\n        |_ g()\n      |_ False\n        |_ M$f()\n";
    assert_eq!(text(&nested()), before);

    let mut e = nested();
    mangle_expr_check(&mut e, &String::from("lib"), &String::from("f"));
    assert_eq!(
        text(&e),
        "lib$f(g(), [h(lib$f())])\n      |_ True\n        |_ g()\n      |_ False\n        |_ M$f()\n"
    );

    let mut e = nested();
    mangle_fns(&mut e, &String::from("M"), &vec![String::from("g"), String::from("M$f")]);
    assert_eq!(
        text(&e),
        "f(M$g(), [h(f())])\n      |_ True\n        |_ M$g()\n      |_ False\n        |_ M$f()\n"
    );

    let mut e = nested();
    mangle_expr(&mut e, String::from("P$"));
    assert_eq!(
        text(&e),
        "P$f(P$g(), [P$h(P$f())])\n      |_ True\n        |_ P$g()\n      |_ False\n        |_ P$M$f()\n"
    );

    let rule = Rename::Import { module: String::from("x"), name: String::from("none") };
    assert_eq!(text(&rename_calls(&nested(), &rule)), before);
}

#[test]
fn mangle_module_rewrites_the_calls_of_an_imported_function() {
    let ast = parse_as("m.ql", "fn sin() {}\nfn f() { 1 + sin() * cos() }\nfn cos() {}", None);
    let mut module = ast.modules[0].clone();
    assert!(mangle_module(&mut module, String::from("lib"), String::from("sin")).is_ok());
    assert_eq!(module.functions[1].body[0].to_string(), "((1 + lib$sin()) * cos())");
    // the functions keep their names
    assert_eq!(module.functions[0].get_name(), "sin");
}

#[test]
fn mangle_renames_functions_and_the_calls_of_peers() {
    let lib = parse_as("lib.ql", "fn sin(r: f64): f64 { r }", None);
    let mut ast = parse_as(
        "main.ql",
        "import lib::sin;\nfn helper() {}\nfn main() { helper(); }\nfn other() { sin(1) }",
        Some(lib),
    );
    assert!(mangle(&mut ast).is_ok());
    let names: Vec<String> = ast.modules.iter().flat_map(|m| m.functions.iter().map(|f| f.get_name().clone())).collect();
    assert_eq!(names, ["lib$sin", "main$helper", "main$main", "main$other"]);
    assert_eq!(ast.modules[1].functions[1].body[0].to_string(), "main$helper()");
    assert_eq!(ast.modules[1].functions[2].body[0].to_string(), "lib$sin(1)");
    // once more changes nothing
    let once = ast.to_string();
    assert!(mangle(&mut ast).is_ok());
    assert_eq!(ast.to_string(), once);
}

#[test]
fn cross_module_import() {
    let lib = parse_as("lib.ql", "fn sin(r: f64): f64 { r }", None);
    let mut ast = parse_as("main.ql", "import lib::sin;\nfn main() {\n  let x = 1;\n  sin(x)\n}", Some(lib));
    assert_eq!(infer(&mut ast), Ok(()));
    let merged = ast.merge();
    assert_eq!(merged.modules.len(), 1);
    assert_eq!(merged.modules[0].get_name(), "Main");
    let main = &merged.modules[0].functions[1];
    assert_eq!(main.get_name(), "main$main");
    assert_eq!(*main.get_output_type(), Type::F64);
    assert_eq!(main.body[1].to_string(), "lib$sin: float64 (x: float64)");
}

#[test]
fn merge_keeps_the_order_of_the_source_and_is_idempotent() {
    let a = parse_as("a.ql", "fn one() {}\nfn two() { one() }", None);
    let b = parse_as("b.ql", "import a::two;\nmodule inner { fn three() {} }\nfn four() { two() }", Some(a));
    let merged = b.merge();
    assert_eq!(
        merged.to_string(),
        "|_ Main\t\t\t// @unknown:0:0
  |_ fn a$one () : <bottom>\t\t// @a.ql:1:4

  |_ fn a$two () : <bottom>\t\t// @a.ql:2:4
    |_ a$one()

  |_ fn inner$three () : <bottom>\t\t// @b.ql:2:19

  |_ fn b$four () : <bottom>\t\t// @b.ql:3:4
    |_ a$two()

"
    );
    assert_eq!(merged.merge().to_string(), merged.to_string());
    assert_eq!(merged.merge().merge().to_string(), merged.to_string());
    // the program itself stays as it was
    assert_eq!(b.modules.len(), 3);
    assert_eq!(b.modules[0].functions[0].get_name(), "one");
    assert_eq!(Qast::default().merge().to_string(), "|_ Main\t\t\t// @unknown:0:0\n");
}

#[test]
fn mangling_and_gate_emission() {
    let mut ast = parse_as(
        "toss.ql",
        "#[nondeter]\nfn toss() {\n  let zero = 0q(1, 0);\n  zero\n}\n\n#[deter]\nfn main() { let choice = 1; }\n\n#[deter, nondeter]\nfn both() {}\n",
        None,
    );
    assert_eq!(infer(&mut ast), Ok(()));
    let module = QasmModule::translate(ast).unwrap();
    assert_eq!(module.version, QasmVersion::V2_0);
    assert_eq!(module.includes.len(), 0);
    assert_eq!(module.gates.len(), 2);
    assert_eq!(module.gates[0].name, "toss$toss");
    assert_eq!(module.gates[1].name, "toss$both");
    let text = module.to_string();
    assert!(text.starts_with("OPENQASM 2.0;\n"));
    assert!(text.contains("gate toss$toss "));
    assert_eq!(
        text,
        "OPENQASM 2.0;

gate toss$toss 
{
    // body: feature to be implemented
}

gate toss$both 
{
    // body: feature to be implemented
}
"
    );
}

#[test]
fn translate_mangles_a_program_that_is_not_mangled_yet() {
    let ast = parse_as("toss.ql", "#[nondeter] fn toss() {}", None);
    let module = QasmModule::translate(ast).unwrap();
    assert_eq!(module.gates[0].name, "toss$toss");
    assert_eq!(QasmModule::translate(Qast::default()).unwrap().to_string(), "OPENQASM 2.0;\n");
}

#[test]
fn gates_are_written_with_parameters_and_registers() {
    let qgate = QasmGate::new("cu1", &["lambda", "theta"], vec![Qreg::new("a", 8), Qreg::new("b", 8)]);
    assert_eq!(
        qgate.to_string(),
        "\ngate cu1(lambda, theta) a, b\n{\n    // body: feature to be implemented\n}\n"
    );
    let plain = QasmGate::new("h", &[], vec![Qreg::new("q", 1)]);
    assert_eq!(plain.to_string(), "\ngate h q\n{\n    // body: feature to be implemented\n}\n");
    let f = FunctionAST::new(
        String::from("m$f"),
        Location::default(),
        vec![],
        vec![],
        Type::Bottom,
        Attributes::default(),
        vec![],
    );
    let from = QasmGate::from(&f);
    assert_eq!(from.name, "m$f");
    assert_eq!(from.params.len(), 0);
    assert_eq!(from.qargs.len(), 0);
}

#[test]
fn module_of_gates() {
    let module = QasmModule::default();
    assert_eq!(
        module.to_string(),
        "OPENQASM 2.0;\ninclude \"qelib1.inc\";\n\ngate def(lambda, theta) a, b\n{\n    // body: feature to be implemented\n}\n"
    );
    assert_eq!(QasmModule::new("2.0").to_string(), "OPENQASM 2.0;\n");
    let made = QasmModule::from(vec![QasmGate::new("g", &[], vec![])]);
    assert_eq!(made.gates.len(), 1);
    assert_eq!(made.includes.len(), 0);
    assert_eq!(QasmVersion::from("2.0"), QasmVersion::V2_0);
    assert_eq!(QasmVersion::V2_0.to_string(), "2.0");
    assert_eq!(QasmInclude(String::from("a.inc")).to_string(), "include \"a.inc\";");
    assert_eq!(
        QasmComments(vec![String::from("// one"), String::from("// two")]).to_string(),
        "// one\n// two\n"
    );
}

#[test]
fn registers() {
    let q = Qreg::new("a", 8);
    assert_eq!(q.name(), "a");
    assert_eq!(q.len(), 8);
    assert_eq!(q.get_type(), "q8");
    assert_eq!(q.to_string(), "qreg a[8]");
    assert_eq!(Qreg::new("b", 120).get_type(), "q120");
    let c = Creg::new("c", 3);
    assert_eq!(c.name(), "c");
    assert_eq!(c.len(), 3);
    assert_eq!(c.bits, vec![false, false, false]);
    let d = QregDef::new("d", 2);
    assert_eq!(d.info.name(), "d");
    assert_eq!(d.info.len(), 2);
    assert_eq!(d.qubits, vec![Qubit::Zero, Qubit::Zero]);
    assert_eq!(Qubit::new(true), Qubit::One);
    assert_eq!(Qubit::new(false), Qubit::Zero);
    assert_eq!(Qubit::zero(), Qubit::Zero);
    assert_eq!(Qubit::one(), Qubit::One);
}

#[test]
fn module_refuses_a_second_function_of_a_name() {
    let f = |name: &str| {
        FunctionAST::new(
            String::from(name),
            Location::default(),
            vec![],
            vec![],
            Type::Bottom,
            Attributes::default(),
            vec![],
        )
    };
    let mut m = ModuleAST::new(String::from("m"), Location::default(), vec![]);
    assert_eq!(m.append_function(f("a")), Ok(()));
    assert_eq!(m.append_function(f("b")), Ok(()));
    assert_eq!(m.append_function(f("a")), Err(qcc::error::QccErrorKind::RedefinedFunction));
    assert_eq!(m.iter().len(), 2);
    assert!(m.defines(&String::from("b")));
    assert!(!m.defines(&String::from("c")));
    let mut program = Qast::new(vec![]);
    program.append_module(m);
    assert_eq!(program.iter().len(), 1);
}
