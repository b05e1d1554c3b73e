use qcc::ast::{Expr, FunctionRef, LiteralAST, Opcode, Qast, VarAST};
use qcc::error::{QccError, QccErrorKind};
use qcc::inference::{
    build_function_table, check_expr, checker, diagnose, gather_already_typed, infer, infer_expr,
    infer_from_table, infer_function, SymbolTable, TypeReport,
};
use qcc::lexer::Location;
use qcc::number::Number;
use qcc::parser::Parser;
use qcc::types::Type;

const BANNER: &str = "\x1b[99;1mqcc\x1b[0m: \x1b[91;1merror:\x1b[0m ";

fn parse(text: &str) -> Qast {
    let mut parser = Parser::new(vec!["t.ql"], Some(text.as_bytes().to_vec())).unwrap().unwrap();
    parser.parse(&String::from("t.ql")).unwrap()
}

fn var(name: &str, type_: Type) -> VarAST {
    VarAST::new_with_type(String::from(name), Location::new("t.ql", 1, 1), type_)
}

fn digit(text: &str) -> Expr {
    Expr::Literal(LiteralAST::Digit(Number::parse(text.as_bytes()).unwrap()))
}

fn table(vars: Vec<VarAST>) -> SymbolTable {
    let mut t = SymbolTable::new();
    t.extend(vars);
    t
}

#[test]
fn type_mismatch_on_return() {
    let mut ast = parse("fn f(): qbit { let x: f64 = 1; x }");
    let reports = diagnose(&mut ast);
    assert_eq!(reports.len(), 1);
    assert_eq!(reports[0].kind(), QccErrorKind::TypeMismatch);
    match &reports[0] {
        TypeReport::Return { last, found, function, declared } => {
            assert_eq!(last.to_string(), "x: float64");
            assert_eq!(*found, Type::F64);
            assert_eq!(function, "t$f");
            assert_eq!(*declared, Type::Qbit);
        }
        _ => panic!("a report on the result was expected"),
    }
    assert_eq!(
        reports[0].to_string(),
        format!(
            "{}a type mismatch is found between\n\t`x: float64` (float64) and `t$f` (qubit) @t.ql:1:32",
            BANNER
        )
    );
    let mut ast = parse("fn f(): qbit { let x: f64 = 1; x }");
    assert_eq!(infer(&mut ast), Err(QccError(QccErrorKind::TypeError)));
    // the program is typed as far as inference came
    assert_eq!(ast.modules[0].functions[0].body[1].to_string(), "x: float64");
}

#[test]
fn variable_that_is_in_no_table_is_reported() {
    let mut ast = parse("fn f() { y }");
    let reports = diagnose(&mut ast);
    assert_eq!(reports.len(), 2);
    assert_eq!(reports[0].kind(), QccErrorKind::UnknownType);
    assert_eq!(
        reports[0].to_string(),
        format!("{}type cannot be inferred for `y` @t.ql:1:10", BANNER)
    );
    // the last expression has no type either, which the function has to be told
    assert_eq!(reports[1].kind(), QccErrorKind::TypeMismatch);
    assert_eq!(
        reports[1].to_string(),
        format!(
            "{}a type mismatch is found between\n\t`y` (<bottom>) and `t$f` (<bottom>) @t.ql:1:10",
            BANNER
        )
    );
}

#[test]
fn let_whose_sides_do_not_go_together_is_reported() {
    let mut ast = parse("fn f(): f64 {\n  let x: f64 = 0q(1,0);\n  1 }");
    let reports = diagnose(&mut ast);
    assert_eq!(reports.len(), 1);
    assert_eq!(reports[0].kind(), QccErrorKind::TypeMismatch);
    assert_eq!(
        reports[0].to_string(),
        format!("{}a type mismatch is found on\n\t2\tx: float64 = 0q1_0", BANNER)
    );
}

#[test]
fn call_of_a_function_without_a_declared_type_is_not_resolved() {
    let mut ast = parse("fn g() { 1 }\nfn f() { let x = g(); }");
    let reports = diagnose(&mut ast);
    assert_eq!(reports[0].kind(), QccErrorKind::UnknownType);
    assert_eq!(
        reports[0].to_string(),
        format!("{}type cannot be inferred for `t$g()` @t.ql:2:18", BANNER)
    );
    // the function itself has got its type
    assert_eq!(*ast.modules[0].functions[0].get_output_type(), Type::F64);
}

#[test]
fn call_of_a_later_function_is_resolved() {
    let mut ast = parse("fn f() { let x = g(); x }\nfn g(): rad { 1 }");
    let reports = diagnose(&mut ast);
    // only the result of `g` does not fit
    assert_eq!(reports.len(), 1);
    assert_eq!(ast.modules[0].functions[0].to_string(),
        "  |_ fn t$f () : radians\t\t// @t.ql:1:4\n    |_ x: radians = t$g: radians ()\n    |_ x: radians\n\n");
}

#[test]
fn successful_inference_types_every_variable() {
    let mut ast = parse(
        "fn g(a: f64): f64 { a }\nfn f(p: qbit, b: bit) {\n  let x = 1;\n  let y = x + g(x);\n  let q: qbit = b;\n  let t = [x, y];\n  let e = [];\n  2 * p }",
    );
    assert_eq!(infer(&mut ast), Ok(()));
    assert_eq!(
        ast.to_string(),
        "|_ t\t\t\t// @t.ql:1:1
  |_ fn t$g (a: float64) : float64\t\t// @t.ql:1:4
    |_ a: float64

  |_ fn t$f (p: qubit, b: bit) : qubit\t\t// @t.ql:2:4
    |_ x: float64 = 1
    |_ y: float64 = (x: float64 + t$g: float64 (x: float64))
    |_ q: qubit = b: bit
    |_ t: float64 = [x: float64, y: float64]
    |_ e = []
    |_ (2 * p: qubit)

"
    );
}

#[test]
fn function_without_a_declared_type_takes_the_type_of_its_last_expression() {
    let mut ast = parse("fn a() { 1 }\nfn b() { 0q(1,0) }\nfn c() { true }\nfn d() { }\nfn e() { [] }\nfn f(): f64 { 1 }");
    assert_eq!(infer(&mut ast), Ok(()));
    let types: Vec<Type> = ast.modules[0].functions.iter().map(|f| *f.get_output_type()).collect();
    assert_eq!(types, vec![Type::F64, Type::Qbit, Type::Bit, Type::Bottom, Type::Bottom, Type::F64]);
}

#[test]
fn infer_mangles_the_program() {
    let mut ast = parse("fn g(): f64 { 1 }\nfn f() { g() }");
    assert_eq!(infer(&mut ast), Ok(()));
    assert_eq!(ast.modules[0].functions[0].get_name(), "t$g");
    assert_eq!(ast.modules[0].functions[1].body[0].to_string(), "t$g: float64 ()");
    // a second inference changes nothing
    let once = ast.to_string();
    assert_eq!(infer(&mut ast), Ok(()));
    assert_eq!(ast.to_string(), once);
}

#[test]
fn symbol_table_is_a_set_in_order() {
    let mut t = SymbolTable::new();
    t.push(var("x", Type::F64));
    t.push(var("y", Type::Bottom));
    t.push(var("x", Type::F64));
    t.push(var("x", Type::Qbit));
    assert_eq!(t.iter().len(), 3);
    assert!(t.contains(&var("x", Type::Qbit)));
    assert!(!t.contains(&var("x", Type::Bit)));
    // among variables the last entry with a type counts, among functions the first
    assert_eq!(t.variable_type(&String::from("x")), Type::Qbit);
    assert_eq!(t.function_type(&String::from("x")), Type::F64);
    assert_eq!(t.variable_type(&String::from("y")), Type::Bottom);
    assert_eq!(t.variable_type(&String::from("z")), Type::Bottom);
    assert_eq!(t.function_type(&String::from("z")), Type::Bottom);
    t.extend(vec![var("z", Type::Bit), var("x", Type::F64), var("z", Type::Bit)]);
    assert_eq!(t.iter().len(), 4);
    assert_eq!(t.function_type(&String::from("z")), Type::Bit);
}

#[test]
fn function_table_has_two_entries_for_each_function() {
    let ast = parse("module lib { fn f(): f64 { 1 } }\nfn g() {}\n");
    let t = build_function_table(&ast);
    let names: Vec<(String, Type)> = t.iter().iter().map(|v| (v.name().clone(), v.get_type())).collect();
    assert_eq!(
        names,
        vec![
            (String::from("f"), Type::F64),
            (String::from("lib$f"), Type::F64),
            (String::from("g"), Type::Bottom),
            (String::from("t$g"), Type::Bottom),
        ]
    );
}

#[test]
fn infer_expr_finds_types_from_what_an_expression_holds() {
    let x = || Expr::Var(var("x", Type::Bottom));
    let f64x = || Expr::Var(var("x", Type::F64));
    let q = || Expr::Var(var("q", Type::Qbit));
    assert_eq!(infer_expr(&x()).1, None);
    assert_eq!(infer_expr(&f64x()).1, Some(Type::F64));
    assert_eq!(infer_expr(&digit("1")).1, Some(Type::F64));
    assert_eq!(infer_expr(&Expr::Literal(LiteralAST::Boolean(true))).1, Some(Type::Bit));
    assert_eq!(infer_expr(&Expr::Literal(LiteralAST::Str(Vec::new()))).1, Some(Type::Bottom));
    let binary = |l: Expr, r: Expr| Expr::BinaryExpr(Box::new(l), Opcode::Mul, Box::new(r));
    assert_eq!(infer_expr(&binary(f64x(), digit("2"))).1, Some(Type::F64));
    assert_eq!(infer_expr(&binary(q(), digit("2"))).1, Some(Type::Qbit));
    assert_eq!(infer_expr(&binary(digit("2"), q())).1, Some(Type::Qbit));
    assert_eq!(infer_expr(&binary(q(), Expr::Literal(LiteralAST::Boolean(true)))).1, None);
    assert_eq!(infer_expr(&binary(x(), digit("2"))).1, None);
    assert_eq!(infer_expr(&binary(digit("2"), x())).1, None);
    assert_eq!(infer_expr(&Expr::Tensor(vec![])).1, Some(Type::Bottom));
    assert_eq!(infer_expr(&Expr::Tensor(vec![f64x(), digit("1")])).1, Some(Type::F64));
    assert_eq!(infer_expr(&Expr::Tensor(vec![f64x(), q()])).1, None);
    assert_eq!(infer_expr(&Expr::Tensor(vec![f64x(), x()])).1, None);
    // a `let` gives its type to a variable that has none
    let (e, t) = infer_expr(&Expr::Let(var("y", Type::Bottom), Box::new(q())));
    assert_eq!(t, Some(Type::Qbit));
    assert_eq!(e.to_string(), "y: qubit = q: qubit");
    let (e, t) = infer_expr(&Expr::Let(var("y", Type::F64), Box::new(q())));
    assert_eq!(t, None);
    assert_eq!(e.to_string(), "y: float64 = q: qubit");
    assert_eq!(infer_expr(&Expr::Let(var("y", Type::F64), Box::new(f64x()))).1, Some(Type::F64));
    assert_eq!(infer_expr(&Expr::Assign(var("y", Type::Bottom), Box::new(f64x()))).1, Some(Type::F64));
    // a conditional has the type that its two branches end with
    let cond = |yes: Vec<Expr>, no: Vec<Expr>| Expr::Conditional(Box::new(x()), yes, no);
    assert_eq!(infer_expr(&cond(vec![], vec![])).1, Some(Type::Bottom));
    assert_eq!(infer_expr(&cond(vec![x(), q()], vec![q()])).1, Some(Type::Qbit));
    assert_eq!(infer_expr(&cond(vec![q()], vec![f64x()])).1, Some(Type::Bottom));
    assert_eq!(infer_expr(&cond(vec![q()], vec![])).1, Some(Type::Bottom));
    assert_eq!(infer_expr(&cond(vec![x()], vec![x()])).1, None);
}

#[test]
fn call_takes_down_the_types_of_its_arguments() {
    let call = Expr::FnCall(
        FunctionRef::new(String::from("f"), Location::default()),
        vec![digit("1"), Expr::Var(var("q", Type::Qbit))],
    );
    let (e, t) = infer_expr(&call);
    assert_eq!(t, Some(Type::Bottom));
    match e {
        Expr::FnCall(f, _) => assert_eq!(f.input_types, vec![Type::F64, Type::Qbit]),
        _ => panic!("a call was expected"),
    }
    // up to the first argument without a type
    let call = Expr::FnCall(
        FunctionRef::new(String::from("f"), Location::default()),
        vec![digit("1"), Expr::Var(var("x", Type::Bottom)), digit("2")],
    );
    let (e, t) = infer_expr(&call);
    assert_eq!(t, None);
    match e {
        Expr::FnCall(f, args) => {
            assert_eq!(f.input_types, vec![]);
            assert_eq!(args.len(), 3);
        }
        _ => panic!("a call was expected"),
    }
    // a call whose result is known is left as it is
    let mut known = FunctionRef::new(String::from("f"), Location::default());
    known.output_type = Type::Rad;
    assert_eq!(known.get_output_type(), Type::Rad);
    assert_eq!(known.get_name(), "f");
    assert_eq!(*known.get_loc(), Location::default());
    let (e, t) = infer_expr(&Expr::FnCall(known, vec![Expr::Var(var("x", Type::Bottom))]));
    assert_eq!(t, Some(Type::Rad));
    assert_eq!(e.to_string(), "f: radians (x)");
}

#[test]
fn infer_from_table_types_the_parts_of_an_expression() {
    let params = table(vec![var("p", Type::Qbit), var("both", Type::Bit)]);
    let locals = table(vec![var("l", Type::F64), var("both", Type::Rad), var("u", Type::Bottom)]);
    let functions = table(vec![var("f", Type::F64), var("g", Type::Bottom)]);
    let look = |e: Expr| {
        let (typed, left) = infer_from_table(&e, &params, &locals, &functions);
        (typed.to_string(), left.map(|r| r.map(|x| x.to_string())))
    };
    let x = |name: &str| Expr::Var(var(name, Type::Bottom));
    assert_eq!(look(x("p")), (String::from("p: qubit"), None));
    assert_eq!(look(x("l")), (String::from("l: float64"), None));
    // a parameter goes before a local variable of the same name
    assert_eq!(look(x("both")), (String::from("both: bit"), None));
    assert_eq!(look(x("u")), (String::from("u"), Some(Ok(String::from("u")))));
    assert_eq!(look(x("z")), (String::from("z"), Some(Ok(String::from("z")))));
    assert_eq!(look(digit("1")), (String::from("1"), None));
    let call = |name: &str, args: Vec<Expr>| {
        Expr::FnCall(FunctionRef::new(String::from(name), Location::default()), args)
    };
    assert_eq!(look(call("f", vec![x("p")])), (String::from("f: float64 (p: qubit)"), None));
    assert_eq!(look(call("g", vec![x("p")])), (String::from("g(p: qubit)"), Some(Ok(String::from("g()")))));
    assert_eq!(look(call("h", vec![])), (String::from("h()"), Some(Ok(String::from("h()")))));
    // the first part that is in no table ends the work
    assert_eq!(
        look(call("f", vec![x("p"), x("z"), x("l")])),
        (String::from("f(p: qubit, z, l)"), Some(Ok(String::from("z"))))
    );
    assert_eq!(
        look(Expr::BinaryExpr(Box::new(x("z")), Opcode::Add, Box::new(x("p")))),
        (String::from("(z + p)"), Some(Ok(String::from("z"))))
    );
    assert_eq!(
        look(Expr::Tensor(vec![x("l"), x("z"), x("p")])),
        (String::from("[l: float64, z, p]"), Some(Ok(String::from("z"))))
    );
    // a `let` takes the type of its value, and a bit goes with a quantum bit
    assert_eq!(
        look(Expr::Let(var("y", Type::Bottom), Box::new(x("l")))),
        (String::from("y: float64 = l: float64"), None)
    );
    assert_eq!(
        look(Expr::Let(var("y", Type::Bit), Box::new(x("p")))),
        (String::from("y: bit = p: qubit"), None)
    );
    assert_eq!(
        look(Expr::Let(var("y", Type::Qbit), Box::new(x("both")))),
        (String::from("y: qubit = both: bit"), None)
    );
    assert_eq!(
        look(Expr::Let(var("y", Type::Rad), Box::new(x("l")))),
        (String::from("y: radians = l: float64"), Some(Err(QccErrorKind::TypeMismatch)))
    );
    assert_eq!(
        look(Expr::Assign(var("y", Type::Rad), Box::new(x("z")))),
        (String::from("y: radians = z"), Some(Ok(String::from("z"))))
    );
    // the condition of a conditional is not looked at
    assert_eq!(
        look(Expr::Conditional(Box::new(x("z")), vec![x("p")], vec![x("l")])),
        (String::from("z\n      |_ True\n        |_ p: qubit\n      |_ False\n        |_ l: float64\n"), None)
    );
    assert_eq!(
        look(Expr::Conditional(Box::new(x("p")), vec![x("z")], vec![x("l")])),
        (String::from("p\n      |_ True\n        |_ z\n      |_ False\n        |_ l\n"), Some(Ok(String::from("z"))))
    );
}

#[test]
fn infer_function_by_itself() {
    let ast = parse("fn f(p: f64) { let x = p; x }");
    let (typed, reports) = infer_function(&ast.modules[0].functions[0], &SymbolTable::new());
    assert_eq!(reports.len(), 0);
    assert_eq!(*typed.get_output_type(), Type::F64);
    assert_eq!(typed.body[0].to_string(), "x: float64 = p: float64");
}

#[test]
fn check_expr_wants_every_type_known_and_in_agreement() {
    let x = || Expr::Var(var("x", Type::Bottom));
    let f = || Expr::Var(var("f", Type::F64));
    let q = || Expr::Var(var("q", Type::Qbit));
    let unknown = Err(QccError(QccErrorKind::UnknownType));
    let mismatch = Err(QccError(QccErrorKind::TypeMismatch));
    assert_eq!(check_expr(&x()), unknown);
    assert_eq!(check_expr(&f()), Ok(Type::F64));
    assert_eq!(check_expr(&digit("1")), Ok(Type::F64));
    let binary = |l: Expr, r: Expr| Expr::BinaryExpr(Box::new(l), Opcode::Add, Box::new(r));
    assert_eq!(check_expr(&binary(f(), digit("1"))), Ok(Type::F64));
    assert_eq!(check_expr(&binary(f(), q())), mismatch);
    assert_eq!(check_expr(&binary(x(), q())), unknown);
    assert_eq!(check_expr(&binary(q(), x())), unknown);
    assert_eq!(check_expr(&Expr::Tensor(vec![])), Ok(Type::Bottom));
    assert_eq!(check_expr(&Expr::Tensor(vec![q(), q()])), Ok(Type::Qbit));
    assert_eq!(check_expr(&Expr::Tensor(vec![q(), f()])), mismatch);
    assert_eq!(check_expr(&Expr::Tensor(vec![q(), x()])), unknown);
    let call = |t: Type, args: Vec<Expr>| {
        let mut g = FunctionRef::new(String::from("g"), Location::default());
        g.output_type = t;
        Expr::FnCall(g, args)
    };
    assert_eq!(check_expr(&call(Type::Rad, vec![f(), q()])), Ok(Type::Rad));
    assert_eq!(check_expr(&call(Type::Bottom, vec![])), unknown);
    assert_eq!(check_expr(&call(Type::Rad, vec![binary(f(), q())])), mismatch);
    assert_eq!(check_expr(&Expr::Let(var("y", Type::F64), Box::new(f()))), Ok(Type::F64));
    assert_eq!(check_expr(&Expr::Let(var("y", Type::Bottom), Box::new(f()))), unknown);
    assert_eq!(check_expr(&Expr::Let(var("y", Type::Qbit), Box::new(f()))), mismatch);
    assert_eq!(check_expr(&Expr::Assign(var("y", Type::Qbit), Box::new(q()))), Ok(Type::Qbit));
    let cond = |yes: Vec<Expr>, no: Vec<Expr>| Expr::Conditional(Box::new(x()), yes, no);
    assert_eq!(check_expr(&cond(vec![], vec![])), Ok(Type::Bottom));
    assert_eq!(check_expr(&cond(vec![f(), q()], vec![])), Ok(Type::Qbit));
    assert_eq!(check_expr(&cond(vec![], vec![f()])), Ok(Type::F64));
    assert_eq!(check_expr(&cond(vec![q()], vec![f(), q()])), Ok(Type::Qbit));
    assert_eq!(check_expr(&cond(vec![q()], vec![f()])), mismatch);
    assert_eq!(check_expr(&cond(vec![x()], vec![f()])), unknown);
}

#[test]
fn checker_fails_with_the_first_error() {
    let mut ast = parse("fn f(p: f64): f64 { let x = p; x }");
    assert_eq!(checker(&ast), Err(QccError(QccErrorKind::UnknownType)));
    assert_eq!(infer(&mut ast), Ok(()));
    assert_eq!(checker(&ast), Ok(()));
    let mut ast = parse("fn f(p: bit): qbit { let q: qbit = p; q }");
    assert_eq!(infer(&mut ast), Ok(()));
    // a bit bound to a quantum bit is inferred, but it is not of one type
    assert_eq!(checker(&ast), Err(QccError(QccErrorKind::TypeMismatch)));
    assert_eq!(checker(&Qast::default()), Ok(()));
}

#[test]
fn gather_already_typed_finds_the_typed_variables() {
    let x = || Expr::Var(var("x", Type::Bottom));
    let f = || Expr::Var(var("f", Type::F64));
    let q = || Expr::Var(var("q", Type::Qbit));
    let names = |e: Expr| -> Vec<String> {
        gather_already_typed(&e).iter().map(|v| v.to_string()).collect()
    };
    assert_eq!(names(x()), Vec::<String>::new());
    assert_eq!(names(f()), ["f: float64"]);
    assert_eq!(
        names(Expr::BinaryExpr(Box::new(q()), Opcode::Add, Box::new(Expr::BinaryExpr(Box::new(x()), Opcode::Add, Box::new(f()))))),
        ["q: qubit", "f: float64"]
    );
    assert_eq!(
        names(Expr::FnCall(FunctionRef::new(String::from("g"), Location::default()), vec![f(), x(), q()])),
        ["f: float64", "q: qubit"]
    );
    assert_eq!(names(Expr::Let(var("y", Type::Rad), Box::new(f()))), ["y: radians", "f: float64"]);
    assert_eq!(names(Expr::Let(var("y", Type::Bottom), Box::new(f()))), ["f: float64"]);
    assert_eq!(names(Expr::Tensor(vec![f()])), Vec::<String>::new());
    assert_eq!(names(digit("1")), Vec::<String>::new());
}

#[test]
fn expressions_show_their_type_and_place() {
    let at = |row: usize| Location::new("t.ql", row, 1);
    let f = Expr::Var(VarAST::new_with_type(String::from("f"), at(3), Type::F64));
    let q = Expr::Var(VarAST::new_with_type(String::from("q"), at(4), Type::Qbit));
    assert_eq!(f.get_type(), Type::F64);
    assert_eq!(f.get_location(), at(3));
    assert_eq!(digit("1").get_type(), Type::F64);
    assert_eq!(digit("1").get_location(), Location::default());
    let both = Expr::BinaryExpr(Box::new(q.clone()), Opcode::Mul, Box::new(f.clone()));
    assert_eq!(both.get_type(), Type::Qbit);
    assert_eq!(both.get_location(), at(4));
    let odd = Expr::BinaryExpr(Box::new(q.clone()), Opcode::Mul, Box::new(Expr::Literal(LiteralAST::Boolean(true))));
    assert_eq!(odd.get_type(), Type::Bottom);
    assert_eq!(Expr::Tensor(vec![]).get_type(), Type::Bottom);
    assert_eq!(Expr::Tensor(vec![]).get_location(), Location::default());
    assert_eq!(Expr::Tensor(vec![q.clone(), f.clone()]).get_type(), Type::Qbit);
    assert_eq!(Expr::Tensor(vec![q.clone(), f.clone()]).get_location(), at(4));
    let call = Expr::FnCall(FunctionRef::new(String::from("g"), at(7)), vec![f.clone()]);
    assert_eq!(call.get_type(), Type::Bottom);
    assert_eq!(call.get_location(), at(7));
    let bound = Expr::Let(VarAST::new_with_type(String::from("y"), at(9), Type::Rad), Box::new(f.clone()));
    assert_eq!(bound.get_type(), Type::Rad);
    assert_eq!(bound.get_location(), at(9));
    let cond = Expr::Conditional(Box::new(f.clone()), vec![f.clone(), q.clone()], vec![f.clone()]);
    assert_eq!(cond.get_type(), Type::Qbit);
    assert_eq!(cond.get_location(), at(3));
    let half = Expr::Conditional(Box::new(f.clone()), vec![q.clone()], vec![]);
    assert_eq!(half.get_type(), Type::Bottom);
}

#[test]
fn symbol_table_is_printed_on_one_line() {
    assert_eq!(SymbolTable::new().to_string(), "\n");
    let t = table(vec![var("x", Type::F64), var("y", Type::Bottom)]);
    assert_eq!(t.to_string(), "x: float64 y \n");
}
