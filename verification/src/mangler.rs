//! Name mangling. A function `f` of module `M` is known to the later
//! stages as `M$f`; the calls of it are rewritten to that name.
use crate::ast::{
    lemma_expr_view, views, Expr, ExprView, FunctionAST, FunctionRef, FunctionRefView,
    FunctionView, Ident, ModuleAST, ModuleView, Qast, function_views,
};
use crate::error::QccError;
use crate::lexer::{Location, LocationView};
use crate::text::{byte_is_alnum, is_alnum, is_word, push_char};
use vstd::prelude::*;
use vstd::utf8::{encode_utf8, is_ascii_chars, is_ascii_chars_encode_utf8};
use crate::text::UNDERSCORE;

verus! {

/// What `sanitize` makes of the bytes of an identifier: letters and digits
/// stay, every other byte becomes an underscore.
pub open spec fn sanitized(bytes: Seq<u8>) -> Seq<char> {
    Seq::new(
        bytes.len(),
        |i: int|
            if is_alnum(bytes[i]) {
                bytes[i] as char
            } else {
                '_'
            },
    )
}

/// Replaces every byte that is neither a letter nor a digit by an
/// underscore.
pub fn sanitize_bytes(bytes: &[u8]) -> (r: Ident)
    ensures
        r@ == sanitized(bytes@),
{
    let mut r = String::new();
    let mut i: usize = 0;
    while i < bytes.len()
        invariant
            i <= bytes@.len(),
            r@ == sanitized(bytes@.subrange(0, i as int)),
        decreases bytes@.len() - i,
    {
        if byte_is_alnum(bytes[i]) {
            push_char(&mut r, bytes[i] as char);
        } else {
            push_char(&mut r, '_');
        }
        i = i + 1;
        assert(r@ =~= sanitized(bytes@.subrange(0, i as int)));
    }
    assert(bytes@.subrange(0, bytes@.len() as int) =~= bytes@);
    r
}

/// Replaces every byte of `identifier` that is neither a letter nor a
/// digit by an underscore.
pub fn sanitize(identifier: Ident) -> (r: Ident)
    ensures
        r@ == sanitized(encode_utf8(identifier@)),
{
    sanitize_bytes(identifier.as_str().as_bytes())
}

/// A sanitized identifier holds letters, digits and underscores only.
pub proof fn lemma_sanitized_is_word(bytes: Seq<u8>)
    ensures
        sanitized(bytes).len() == bytes.len(),
        is_ascii_chars(sanitized(bytes)),
        forall|i: int| 0 <= i < bytes.len() ==> is_word(#[trigger] sanitized(bytes)[i] as u8),
        !sanitized(bytes).contains('$'),
{
    assert forall|i: int| 0 <= i < bytes.len() implies is_word(#[trigger] sanitized(bytes)[i] as u8)
        && '\0' <= sanitized(bytes)[i] <= '\u{7f}' && sanitized(bytes)[i] != '$' by {
        let b = bytes[i];
        if is_alnum(b) {
            assert(sanitized(bytes)[i] == b as char);
            assert((b as char) as u8 == b);
        } else {
            assert(sanitized(bytes)[i] == '_');
        }
    }
}

/// Sanitizing twice gives what sanitizing once gives.
pub proof fn lemma_sanitize_idempotent(bytes: Seq<u8>)
    ensures
        sanitized(encode_utf8(sanitized(bytes))) == sanitized(bytes),
{
    lemma_sanitized_is_word(bytes);
    let once = sanitized(bytes);
    is_ascii_chars_encode_utf8(once);
    let again = sanitized(encode_utf8(once));
    assert(again.len() == once.len());
    assert forall|i: int| 0 <= i < once.len() implies again[i] == once[i] by {
        let b = encode_utf8(once)[i];
        assert(b == once[i] as u8);
        assert(is_word(b));
        if is_alnum(b) {
            assert(b as char == once[i]);
        } else {
            assert(b == UNDERSCORE);
            assert(once[i] == '_');
        }
    }
    assert(again =~= once);
}

/// The name of function `name` of module `module` after mangling.
pub open spec fn mangled(module: Seq<char>, name: Seq<char>) -> Seq<char> {
    module + seq!['$'] + name
}

/// Whether a name is a mangled one: it holds the separator.
pub open spec fn is_mangled(name: Seq<char>) -> bool {
    name.contains('$')
}

/// The models of a list of names.
pub open spec fn name_views(names: Seq<Ident>) -> Seq<Seq<char>> {
    Seq::new(names.len(), |i: int| names[i]@)
}

/// A rule by which the names of called functions are rewritten.
pub enum Rename {
    /// calls of the imported function `name` go to `module`
    Import { module: Ident, name: Ident },
    /// calls of the functions `names` of `module` itself get its prefix,
    /// unless their name is mangled already
    Peers { module: Ident, names: Vec<Ident> },
    /// every call gets the prefix
    Prefix { prefix: Ident },
}

pub enum RenameView {
    Import { module: Seq<char>, name: Seq<char> },
    Peers { module: Seq<char>, names: Seq<Seq<char>> },
    Prefix { prefix: Seq<char> },
}

impl View for Rename {
    type V = RenameView;

    open spec fn view(&self) -> RenameView {
        match self {
            Rename::Import { module, name } => RenameView::Import { module: module@, name: name@ },
            Rename::Peers { module, names } => RenameView::Peers {
                module: module@,
                names: name_views(names@),
            },
            Rename::Prefix { prefix } => RenameView::Prefix { prefix: prefix@ },
        }
    }
}

impl RenameView {
    /// The name that calls of `name` are given.
    pub open spec fn apply(self, name: Seq<char>) -> Seq<char> {
        match self {
            RenameView::Import { module, name: imported } => if name == imported {
                mangled(module, name)
            } else {
                name
            },
            RenameView::Peers { module, names } => if names.contains(name) && !is_mangled(name) {
                mangled(module, name)
            } else {
                name
            },
            RenameView::Prefix { prefix } => prefix + name,
        }
    }
}

/// Whether `name` holds the separator `$`.
pub fn has_separator(name: &str) -> (r: bool)
    ensures
        r == is_mangled(name@),
{
    let n = name.unicode_len();
    let mut i: usize = 0;
    while i < n
        invariant
            i <= n == name@.len(),
            forall|j: int| 0 <= j < i ==> name@[j] != '$',
        decreases n - i,
    {
        if name.get_char(i) == '$' {
            assert(name@[i as int] == '$');
            return true;
        }
        i = i + 1;
    }
    false
}

/// The mangled name of function `name` of module `module`.
pub fn mangle_name(module: &Ident, name: &Ident) -> (r: Ident)
    ensures
        r@ == mangled(module@, name@),
{
    let mut r = module.clone();
    r.append("$");
    r.append(name.as_str());
    proof {
        reveal_strlit("$");
        assert("$"@ =~= seq!['$']);
        assert(r@ =~= mangled(module@, name@));
    }
    r
}

impl Rename {
    /// The name that calls of `name` are given.
    pub fn apply(&self, name: &Ident) -> (r: Ident)
        ensures
            r@ == self@.apply(name@),
    {
        match self {
            Rename::Import { module, name: imported } => {
                if *name == *imported {
                    mangle_name(module, name)
                } else {
                    name.clone()
                }
            },
            Rename::Peers { module, names } => {
                let mut known = false;
                let mut i: usize = 0;
                while i < names.len()
                    invariant
                        i <= names@.len(),
                        known == exists|j: int| 0 <= j < i && names@[j]@ == name@,
                    decreases names@.len() - i,
                {
                    if names[i] == *name {
                        known = true;
                    }
                    i = i + 1;
                }
                proof {
                    let list = name_views(names@);
                    if known {
                        let j = choose|j: int| 0 <= j < names@.len() && names@[j]@ == name@;
                        assert(list[j] == name@);
                    }
                    if list.contains(name@) {
                        let j = choose|j: int| 0 <= j < list.len() && list[j] == name@;
                        assert(names@[j]@ == name@);
                    }
                }
                if known && !has_separator(name.as_str()) {
                    mangle_name(module, name)
                } else {
                    name.clone()
                }
            },
            Rename::Prefix { prefix } => {
                let mut r = prefix.clone();
                r.append(name.as_str());
                r
            },
        }
    }
}

/// An expression with the names of all called functions rewritten by
/// `rule`; nothing else changes.
pub open spec fn renamed(e: ExprView, rule: RenameView) -> ExprView
    decreases e,
{
    match e {
        ExprView::Var(_) => e,
        ExprView::Literal(_) => e,
        ExprView::BinaryExpr(lhs, op, rhs) => ExprView::BinaryExpr(
            Box::new(renamed(*lhs, rule)),
            op,
            Box::new(renamed(*rhs, rule)),
        ),
        ExprView::Tensor(items) => ExprView::Tensor(
            Seq::new(
                items.len(),
                |i: int|
                    if 0 <= i < items.len() {
                        renamed(items[i], rule)
                    } else {
                        arbitrary()
                    },
            ),
        ),
        ExprView::FnCall(f, args) => ExprView::FnCall(
            FunctionRefView { name: rule.apply(f.name), ..f },
            Seq::new(
                args.len(),
                |i: int|
                    if 0 <= i < args.len() {
                        renamed(args[i], rule)
                    } else {
                        arbitrary()
                    },
            ),
        ),
        ExprView::Let(var, val) => ExprView::Let(var, Box::new(renamed(*val, rule))),
        ExprView::Assign(var, val) => ExprView::Assign(var, Box::new(renamed(*val, rule))),
        ExprView::Conditional(cond, yes, no) => ExprView::Conditional(
            Box::new(renamed(*cond, rule)),
            Seq::new(
                yes.len(),
                |i: int|
                    if 0 <= i < yes.len() {
                        renamed(yes[i], rule)
                    } else {
                        arbitrary()
                    },
            ),
            Seq::new(
                no.len(),
                |i: int|
                    if 0 <= i < no.len() {
                        renamed(no[i], rule)
                    } else {
                        arbitrary()
                    },
            ),
        ),
    }
}

/// A list of expressions with its calls rewritten by `rule`.
pub open spec fn renamed_all(items: Seq<ExprView>, rule: RenameView) -> Seq<ExprView> {
    Seq::new(items.len(), |i: int| renamed(items[i], rule))
}

/// A function with the calls of its body rewritten by `rule`.
pub open spec fn renamed_function(f: FunctionView, rule: RenameView) -> FunctionView {
    FunctionView { body: renamed_all(f.body, rule), ..f }
}

/// A module with the calls of its functions rewritten by `rule`.
pub open spec fn renamed_module(m: ModuleView, rule: RenameView) -> ModuleView {
    ModuleView {
        functions: Seq::new(m.functions.len(), |i: int| renamed_function(m.functions[i], rule)),
        ..m
    }
}

/// Rewrites the calls in a list of expressions.
pub fn rename_all(items: &Vec<Expr>, rule: &Rename) -> (r: Vec<Expr>)
    ensures
        views(r@) == renamed_all(views(items@), rule@),
    decreases items,
{
    let mut out: Vec<Expr> = Vec::new();
    let mut i: usize = 0;
    while i < items.len()
        invariant
            i <= items@.len(),
            out@.len() == i,
            forall|j: int| 0 <= j < i ==> out@[j]@ == renamed(items@[j]@, rule@),
        decreases items@.len() - i,
    {
        out.push(rename_calls(&items[i], rule));
        i = i + 1;
    }
    assert(views(out@) =~= renamed_all(views(items@), rule@));
    out
}

/// Rewrites the names of the functions that `expr` calls.
pub fn rename_calls(expr: &Expr, rule: &Rename) -> (r: Expr)
    ensures
        r@ == renamed(expr@, rule@),
    decreases expr,
{
    proof {
        lemma_expr_view(*expr);
    }
    let r = match expr {
        Expr::Var(v) => Expr::Var(v.clone()),
        Expr::Literal(l) => Expr::Literal(l.clone()),
        Expr::BinaryExpr(lhs, op, rhs) => Expr::BinaryExpr(
            Box::new(rename_calls(lhs, rule)),
            *op,
            Box::new(rename_calls(rhs, rule)),
        ),
        Expr::Tensor(items) => {
            let out = rename_all(items, rule);
            assert(renamed(expr@, rule@)->Tensor_0 =~= views(out@));
            Expr::Tensor(out)
        },
        Expr::FnCall(f, args) => {
            let out = rename_all(args, rule);
            assert(renamed(expr@, rule@)->FnCall_1 =~= views(out@));
            Expr::FnCall(
                FunctionRef {
                    name: rule.apply(&f.name),
                    location: f.location.clone(),
                    input_types: f.input_types.clone(),
                    output_type: f.output_type,
                },
                out,
            )
        },
        Expr::Let(var, val) => Expr::Let(var.clone(), Box::new(rename_calls(val, rule))),
        Expr::Assign(var, val) => Expr::Assign(var.clone(), Box::new(rename_calls(val, rule))),
        Expr::Conditional(cond, yes, no) => {
            let a = rename_all(yes, rule);
            let b = rename_all(no, rule);
            assert(renamed(expr@, rule@)->Conditional_1 =~= views(a@));
            assert(renamed(expr@, rule@)->Conditional_2 =~= views(b@));
            Expr::Conditional(Box::new(rename_calls(cond, rule)), a, b)
        },
    };
    proof {
        lemma_expr_view(r);
    }
    r
}

/// Puts `prefix` before the name of every function that `expr` calls.
pub fn mangle_expr(expr: &mut Expr, prefix: Ident)
    ensures
        final(expr)@ == renamed(old(expr)@, RenameView::Prefix { prefix: prefix@ }),
{
    let rule = Rename::Prefix { prefix };
    let r = rename_calls(expr, &rule);
    *expr = r;
}

/// Rewrites the calls of the functions `functions` of module `module_name`
/// to their mangled names. Calls of other functions, and of functions whose
/// name is mangled already, stay as they are.
pub fn mangle_fns(expr: &mut Expr, module_name: &Ident, functions: &Vec<Ident>)
    ensures
        final(expr)@ == renamed(
            old(expr)@,
            RenameView::Peers { module: module_name@, names: name_views(functions@) },
        ),
{
    let mut names: Vec<Ident> = Vec::new();
    let mut i: usize = 0;
    while i < functions.len()
        invariant
            i <= functions@.len(),
            names@.len() == i,
            forall|j: int| 0 <= j < i ==> names@[j]@ == functions@[j]@,
        decreases functions@.len() - i,
    {
        names.push(functions[i].clone());
        i = i + 1;
    }
    assert(name_views(names@) =~= name_views(functions@));
    let rule = Rename::Peers { module: module_name.clone(), names };
    let r = rename_calls(expr, &rule);
    *expr = r;
}

/// Rewrites every call of `fn_name` in `expr` to `mod_name$fn_name`.
pub fn mangle_expr_check(expr: &mut Expr, mod_name: &Ident, fn_name: &Ident)
    ensures
        final(expr)@ == renamed(
            old(expr)@,
            RenameView::Import { module: mod_name@, name: fn_name@ },
        ),
{
    let rule = Rename::Import { module: mod_name.clone(), name: fn_name.clone() };
    let r = rename_calls(expr, &rule);
    *expr = r;
}

/// Rewrites the calls in the body of a function.
fn rename_function(f: &FunctionAST, rule: &Rename, name: Ident) -> (r: FunctionAST)
    ensures
        r@ == (FunctionView { name: name@, ..renamed_function(f@, rule@) }),
{
    FunctionAST {
        name,
        location: f.location.clone(),
        params: crate::ast::clone_vars(&f.params),
        input_type: f.input_type.clone(),
        output_type: f.output_type,
        attrs: f.attrs.clone(),
        body: rename_all(&f.body, rule),
    }
}

/// Rewrites every call of the imported function `fn_name` in `module` to
/// `mod_name$fn_name`.
pub fn mangle_module(module: &mut ModuleAST, mod_name: Ident, fn_name: Ident) -> (r: Result<(), QccError>)
    ensures
        r is Ok,
        final(module)@ == renamed_module(
            old(module)@,
            RenameView::Import { module: mod_name@, name: fn_name@ },
        ),
{
    let rule = Rename::Import { module: mod_name, name: fn_name };
    let mut functions: Vec<FunctionAST> = Vec::new();
    let mut i: usize = 0;
    while i < module.functions.len()
        invariant
            i <= module.functions@.len(),
            functions@.len() == i,
            *module == *old(module),
            forall|j: int| 0 <= j < i ==> functions@[j]@ == renamed_function(module.functions@[j]@, rule@),
        decreases module.functions@.len() - i,
    {
        let f = &module.functions[i];
        functions.push(rename_function(f, &rule, f.name.clone()));
        i = i + 1;
    }
    module.functions = functions;
    assert(final(module)@.functions =~= renamed_module(old(module)@, rule@).functions);
    Ok(())
}

/// The names of the functions of a module, in order.
pub open spec fn function_names(m: ModuleView) -> Seq<Seq<char>> {
    Seq::new(m.functions.len(), |i: int| m.functions[i].name)
}

/// The rule by which the calls inside module `m` are mangled.
pub open spec fn peers_of(m: ModuleView) -> RenameView {
    RenameView::Peers { module: m.name, names: function_names(m) }
}

/// The name a function of module `module` has after mangling: a name that
/// is mangled already stays.
pub open spec fn qualified(module: Seq<char>, name: Seq<char>) -> Seq<char> {
    if is_mangled(name) {
        name
    } else {
        mangled(module, name)
    }
}

/// A module after mangling: each function has its module's name before its
/// own, and so has each call of a function of the same module.
pub open spec fn mangled_module(m: ModuleView) -> ModuleView {
    ModuleView {
        functions: Seq::new(
            m.functions.len(),
            |i: int|
                FunctionView {
                    name: qualified(m.name, m.functions[i].name),
                    ..renamed_function(m.functions[i], peers_of(m))
                },
        ),
        ..m
    }
}

/// A program after mangling: each of its modules mangled.
pub open spec fn mangled_program(p: Seq<ModuleView>) -> Seq<ModuleView> {
    Seq::new(p.len(), |i: int| mangled_module(p[i]))
}

/// Mangles one module.
pub fn mangle_one(module: &ModuleAST) -> (r: ModuleAST)
    ensures
        r@ == mangled_module(module@),
{
    let mut names: Vec<Ident> = Vec::new();
    let mut i: usize = 0;
    while i < module.functions.len()
        invariant
            i <= module.functions@.len(),
            names@.len() == i,
            forall|j: int| 0 <= j < i ==> names@[j]@ == module.functions@[j]@.name,
        decreases module.functions@.len() - i,
    {
        names.push(module.functions[i].name.clone());
        i = i + 1;
    }
    assert(name_views(names@) =~= function_names(module@));
    let rule = Rename::Peers { module: module.name.clone(), names };
    let mut functions: Vec<FunctionAST> = Vec::new();
    let mut k: usize = 0;
    while k < module.functions.len()
        invariant
            k <= module.functions@.len(),
            functions@.len() == k,
            rule@ == peers_of(module@),
            forall|j: int| 0 <= j < k ==> functions@[j]@ == mangled_module(module@).functions[j],
        decreases module.functions@.len() - k,
    {
        let f = &module.functions[k];
        let name = if has_separator(f.name.as_str()) {
            f.name.clone()
        } else {
            mangle_name(&module.name, &f.name)
        };
        functions.push(rename_function(f, &rule, name));
        k = k + 1;
    }
    let r = ModuleAST { name: module.name.clone(), location: module.location.clone(), functions };
    assert(r@.functions =~= mangled_module(module@).functions);
    r
}

/// Mangles a program: every function is renamed to `Module$Function`, and
/// so is every call of a function of the module the call stands in.
pub fn mangle(ast: &mut Qast) -> (r: Result<(), QccError>)
    ensures
        r is Ok,
        final(ast)@ == mangled_program(old(ast)@),
{
    let mut modules: Vec<ModuleAST> = Vec::new();
    let mut i: usize = 0;
    while i < ast.modules.len()
        invariant
            i <= ast.modules@.len(),
            modules@.len() == i,
            *ast == *old(ast),
            forall|j: int| 0 <= j < i ==> modules@[j]@ == mangled_module(ast.modules@[j]@),
        decreases ast.modules@.len() - i,
    {
        modules.push(mangle_one(&ast.modules[i]));
        i = i + 1;
    }
    ast.modules = modules;
    assert(final(ast)@ =~= mangled_program(old(ast)@));
    Ok(())
}

/// The functions of the first `k` modules of a program, in order.
pub open spec fn all_functions(p: Seq<ModuleView>, k: nat) -> Seq<FunctionView>
    decreases k,
{
    if k == 0 || k > p.len() {
        Seq::empty()
    } else {
        all_functions(p, (k - 1) as nat) + p[k - 1].functions
    }
}

/// A program merged into one: the only module, `Main`, holds the functions
/// of all modules under their mangled names, in the order of the source.
pub open spec fn merged(p: Seq<ModuleView>) -> Seq<ModuleView> {
    seq![
        ModuleView {
            name: "Main"@,
            location: LocationView::unknown(),
            functions: all_functions(mangled_program(p), p.len()),
        },
    ]
}

impl Qast {
    /// Merges the modules of the program into one. The program is mangled
    /// on the way, so that every function keeps the name of the module it
    /// came from.
    pub fn merge(&self) -> (r: Qast)
        ensures
            r@ == merged(self@),
    {
        let mut copy = self.clone();
        let _ = mangle(&mut copy);
        let ghost q = copy@;
        let mut functions: Vec<FunctionAST> = Vec::new();
        let mut i: usize = 0;
        assert(function_views(functions@) =~= all_functions(q, 0));
        while i < copy.modules.len()
            invariant
                i <= copy.modules@.len(),
                q == copy@,
                q.len() == copy.modules@.len(),
                function_views(functions@) == all_functions(q, i as nat),
            decreases copy.modules@.len() - i,
        {
            let m = &copy.modules[i];
            assert(q[i as int] == m@);
            let ghost start = function_views(functions@);
            let mut k: usize = 0;
            assert(start + m@.functions.subrange(0, 0) =~= start);
            while k < m.functions.len()
                invariant
                    k <= m.functions@.len(),
                    m@.functions.len() == m.functions@.len(),
                    function_views(functions@) == start + m@.functions.subrange(0, k as int),
                decreases m.functions@.len() - k,
            {
                let ghost before = function_views(functions@);
                functions.push(m.functions[k].clone());
                k = k + 1;
                proof {
                    assert(function_views(functions@) =~= before.push(m@.functions[k - 1]));
                    assert(before.push(m@.functions[k - 1]) =~= start + m@.functions.subrange(0, k as int));
                }
            }
            assert(m@.functions.subrange(0, m@.functions.len() as int) =~= m@.functions);
            i = i + 1;
        }
        let main = ModuleAST {
            name: String::from_str("Main"),
            location: Location::default(),
            functions,
        };
        let mut modules: Vec<ModuleAST> = Vec::new();
        modules.push(main);
        let r = Qast { modules };
        assert(r@ =~= merged(self@));
        r
    }
}

/// A mangled name holds the separator.
pub proof fn lemma_mangled_is_mangled(module: Seq<char>, name: Seq<char>)
    ensures
        is_mangled(mangled(module, name)),
        is_mangled(qualified(module, name)),
{
    assert(mangled(module, name)[module.len() as int] == '$');
}

/// A rule that changes no name changes no expression.
pub proof fn lemma_renamed_identity(e: ExprView, rule: RenameView)
    requires
        forall|n: Seq<char>| #[trigger] rule.apply(n) == n,
    ensures
        renamed(e, rule) == e,
    decreases e,
{
    match e {
        ExprView::Var(_) => {},
        ExprView::Literal(_) => {},
        ExprView::BinaryExpr(lhs, op, rhs) => {
            lemma_renamed_identity(*lhs, rule);
            lemma_renamed_identity(*rhs, rule);
        },
        ExprView::Tensor(items) => {
            assert forall|i: int| 0 <= i < items.len() implies renamed(items[i], rule) == items[i] by {
                lemma_renamed_identity(items[i], rule);
            }
            assert(renamed(e, rule)->Tensor_0 =~= items);
        },
        ExprView::FnCall(f, args) => {
            assert forall|i: int| 0 <= i < args.len() implies renamed(args[i], rule) == args[i] by {
                lemma_renamed_identity(args[i], rule);
            }
            assert(renamed(e, rule)->FnCall_1 =~= args);
            assert(rule.apply(f.name) == f.name);
        },
        ExprView::Let(var, val) => {
            lemma_renamed_identity(*val, rule);
        },
        ExprView::Assign(var, val) => {
            lemma_renamed_identity(*val, rule);
        },
        ExprView::Conditional(cond, yes, no) => {
            lemma_renamed_identity(*cond, rule);
            assert forall|i: int| 0 <= i < yes.len() implies renamed(yes[i], rule) == yes[i] by {
                lemma_renamed_identity(yes[i], rule);
            }
            assert forall|i: int| 0 <= i < no.len() implies renamed(no[i], rule) == no[i] by {
                lemma_renamed_identity(no[i], rule);
            }
            assert(renamed(e, rule)->Conditional_1 =~= yes);
            assert(renamed(e, rule)->Conditional_2 =~= no);
        },
    }
}

/// Every function of a mangled program has a mangled name.
pub proof fn lemma_all_functions_mangled(p: Seq<ModuleView>, k: nat)
    requires
        k <= p.len(),
    ensures
        forall|i: int|
            0 <= i < all_functions(mangled_program(p), k).len() ==> is_mangled(
                #[trigger] all_functions(mangled_program(p), k)[i].name,
            ),
    decreases k,
{
    if k > 0 {
        lemma_all_functions_mangled(p, (k - 1) as nat);
        let q = mangled_program(p);
        let before = all_functions(q, (k - 1) as nat);
        let m = p[k - 1];
        assert forall|i: int| 0 <= i < all_functions(q, k).len() implies is_mangled(
            #[trigger] all_functions(q, k)[i].name,
        ) by {
            if i >= before.len() {
                let j = i - before.len();
                assert(all_functions(q, k)[i] == q[k - 1].functions[j]);
                lemma_mangled_is_mangled(m.name, m.functions[j].name);
            }
        }
    }
}

/// Mangling a module whose functions all have mangled names changes
/// nothing.
pub proof fn lemma_mangle_again(m: ModuleView)
    requires
        forall|i: int| 0 <= i < m.functions.len() ==> is_mangled(#[trigger] m.functions[i].name),
    ensures
        mangled_module(m) == m,
{
    let rule = peers_of(m);
    assert forall|n: Seq<char>| #[trigger] rule.apply(n) == n by {
        let names = function_names(m);
        if names.contains(n) {
            let j = choose|j: int| 0 <= j < names.len() && names[j] == n;
            assert(is_mangled(m.functions[j].name));
        }
    }
    assert forall|i: int| 0 <= i < m.functions.len() implies mangled_module(m).functions[i]
        == m.functions[i] by {
        let f = m.functions[i];
        assert forall|j: int| 0 <= j < f.body.len() implies renamed(f.body[j], rule) == f.body[j] by {
            lemma_renamed_identity(f.body[j], rule);
        }
        assert(renamed_all(f.body, rule) =~= f.body);
        assert(is_mangled(f.name));
    }
    assert(mangled_module(m).functions =~= m.functions);
}

/// Merging a merged program gives the same program.
pub proof fn lemma_merge_idempotent(p: Seq<ModuleView>)
    ensures
        merged(merged(p)) == merged(p),
{
    let q = merged(p);
    let main = q[0];
    lemma_all_functions_mangled(p, p.len());
    lemma_mangle_again(main);
    assert(mangled_program(q) =~= q);
    assert(all_functions(q, 0) =~= Seq::<FunctionView>::empty());
    assert(all_functions(q, 1) =~= main.functions);
    assert(merged(q) =~= q);
}

} // verus!
