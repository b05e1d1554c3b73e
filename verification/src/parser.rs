//! The parser: the options of the command line, and the way from the bytes
//! of a source file to the program it defines.
use crate::ast::{
    lemma_expr_view, module_views, views, Expr, ExprView, FunctionRef, FunctionRefView,
    FunctionView, Ident, ModuleAST, ModuleView, Qast,
};
use crate::config::Config;
use crate::error::{QccError, QccErrorKind, QccErrorLoc};
use crate::grammar::{
    function_at, import_at, lemma_function_name, lemma_module_plain, module_at, plain_functions,
    Import, ImportView,
};
use crate::lexer::{
    basename, col_of, first_bad, lemma_lexemes_plain, plain_tokens, lemma_line_bounds, lexeme_views,
    lexemes_of, line_end, line_start, name_start, row_of, Lexeme, LexemeView, Lexer, Location,
    LocationView, Token,
};
use crate::mangler::{
    function_names, is_mangled, lemma_mangled_is_mangled, mangle_module, mangle_name, mangled,
    mangled_program, peers_of, renamed, renamed_all, renamed_module, sanitize, sanitized,
    RenameView,
};
use crate::text::latin;
use vstd::prelude::*;
use vstd::utf8::encode_utf8;

verus! {

/// What the options read so far ask for.
pub struct Options {
    pub analyze: bool,
    pub print_ast: bool,
    pub print_ast_only: bool,
    pub print_qasm: bool,
    pub level: u8,
    pub src: Seq<char>,
    pub output: Seq<char>,
    /// 1 after `-o`, until the path that follows it was taken; 2 after that
    pub pending: u8,
}

/// Where the reading of the command line stands.
pub enum Cmdline {
    /// still reading
    Going(Options),
    /// help was asked for
    Help,
    /// an argument was refused
    Bad(QccErrorKind),
}

/// A path with every `.ql` in it replaced by `.s`, from left to right.
pub open spec fn retargeted(path: Seq<char>) -> Seq<char>
    decreases path.len(),
{
    if path.len() == 0 {
        Seq::empty()
    } else if path.len() >= 3 && path[0] == '.' && path[1] == 'q' && path[2] == 'l' {
        seq!['.', 's'] + retargeted(path.subrange(3, path.len() as int))
    } else {
        seq![path[0]] + retargeted(path.drop_first())
    }
}

/// The options before any argument is read.
pub open spec fn no_options() -> Options {
    Options {
        analyze: false,
        print_ast: false,
        print_ast_only: false,
        print_qasm: false,
        level: 0,
        src: Seq::empty(),
        output: Seq::empty(),
        pending: 0,
    }
}

/// What one more argument makes of the options. An argument that starts
/// with a dash is an option and has to be a known one. Any other argument
/// is a path: that of the output right behind `-o`, else that of the
/// source, from which the path of the output is made unless one was given.
pub open spec fn with_argument(o: Options, arg: Seq<char>) -> Cmdline {
    if arg == "--help"@ || arg == "-h"@ {
        Cmdline::Help
    } else if arg == "--analyze"@ {
        Cmdline::Going(Options { analyze: true, ..o })
    } else if arg == "--dump-ast"@ {
        Cmdline::Going(Options { print_ast: true, ..o })
    } else if arg == "--dump-ast-only"@ {
        Cmdline::Going(Options { print_ast_only: true, ..o })
    } else if arg == "--dump-qasm"@ {
        Cmdline::Going(Options { print_qasm: true, ..o })
    } else if arg == "-O0"@ {
        Cmdline::Going(Options { level: 0, ..o })
    } else if arg == "-O1"@ {
        Cmdline::Going(Options { level: 1, ..o })
    } else if arg == "-O2"@ {
        Cmdline::Going(Options { level: 2, ..o })
    } else if arg == "-Og"@ {
        Cmdline::Going(Options { level: 3, ..o })
    } else if arg == "-o"@ {
        Cmdline::Going(Options { pending: 1, ..o })
    } else if arg.len() > 0 && arg[0] == '-' {
        Cmdline::Bad(QccErrorKind::NoSuchArg)
    } else if o.pending == 1 {
        Cmdline::Going(Options { output: arg, pending: 2, ..o })
    } else if o.pending == 0 {
        Cmdline::Going(Options { src: arg, output: retargeted(arg), ..o })
    } else {
        Cmdline::Going(Options { src: arg, ..o })
    }
}

/// Where the reading stands after the first `k` arguments. Help and a
/// refused argument end the reading.
pub open spec fn cmdline(args: Seq<Seq<char>>, k: nat) -> Cmdline
    decreases k,
{
    if k == 0 || k > args.len() {
        Cmdline::Going(no_options())
    } else {
        match cmdline(args, (k - 1) as nat) {
            Cmdline::Going(o) => with_argument(o, args[k - 1]),
            ended => ended,
        }
    }
}

/// Once the reading has ended, more arguments change nothing.
pub proof fn lemma_cmdline_ended(args: Seq<Seq<char>>, k: nat, n: nat)
    requires
        k <= n <= args.len(),
        !(cmdline(args, k) is Going),
    ensures
        cmdline(args, n) == cmdline(args, k),
    decreases n - k,
{
    if k < n {
        lemma_cmdline_ended(args, k, (n - 1) as nat);
    }
}

/// The models of a list of arguments.
pub open spec fn arg_views(args: Seq<&str>) -> Seq<Seq<char>> {
    Seq::new(args.len(), |i: int| args[i]@)
}

/// Whether `config` holds what `o` asks for.
pub open spec fn configured(config: Config, o: Options) -> bool {
    &&& !config.debug
    &&& config.print_ast == o.print_ast
    &&& config.print_ast_only == o.print_ast_only
    &&& config.print_qasm == o.print_qasm
    &&& config.version@ == "0.1.0"@
    &&& config.analyzer.status == o.analyze
    &&& config.analyzer.src@ == o.src
    &&& config.optimizer.level == o.level
    &&& config.optimizer.output@ == o.output
}

/// The path of the output for a source path: every `.ql` becomes `.s`.
pub fn retarget(path: &str) -> (r: String)
    ensures
        r@ == retargeted(path@),
{
    let n = path.unicode_len();
    let mut r = String::new();
    let mut i: usize = 0;
    proof {
        assert(path@.subrange(0, n as int) =~= path@);
        assert(r@ + retargeted(path@) =~= retargeted(path@));
    }
    while i < n
        invariant
            i <= n == path@.len(),
            retargeted(path@) == r@ + retargeted(path@.subrange(i as int, n as int)),
        decreases n - i,
    {
        let ghost rest = path@.subrange(i as int, n as int);
        let ghost before = r@;
        if n - i >= 3 && path.get_char(i) == '.' && path.get_char(i + 1) == 'q' && path.get_char(
            i + 2,
        ) == 'l' {
            proof {
                reveal_strlit(".s");
                assert(".s"@ =~= seq!['.', 's']);
                assert(rest.subrange(3, rest.len() as int) =~= path@.subrange(i + 3, n as int));
            }
            r.append(".s");
            i = i + 3;
            proof {
                assert(r@ + retargeted(path@.subrange(i as int, n as int)) =~= before + (seq!['.', 's']
                    + retargeted(path@.subrange(i as int, n as int))));
            }
        } else {
            proof {
                assert(rest.drop_first() =~= path@.subrange(i + 1, n as int));
            }
            crate::text::push_char(&mut r, path.get_char(i));
            i = i + 1;
            proof {
                assert(r@ + retargeted(path@.subrange(i as int, n as int)) =~= before + (seq![rest[0]]
                    + retargeted(path@.subrange(i as int, n as int))));
            }
        }
    }
    proof {
        assert(r@ + Seq::<char>::empty() =~= r@);
    }
    r
}

/// Whether `arg` is the text `word`.
fn same(arg: &str, word: &str) -> (r: bool)
    ensures
        r == (arg@ == word@),
{
    String::from_str(arg) == String::from_str(word)
}

/// Whether `arg` starts with a dash.
fn dashed(arg: &str) -> (r: bool)
    ensures
        r == (arg@.len() > 0 && arg@[0] == '-'),
{
    arg.unicode_len() > 0 && arg.get_char(0) == '-'
}

/// What a diagnostic of the parser says: the kind of error, where it was
/// found, and the text of the source line that is shown with it.
#[derive(Debug)]
pub struct Diagnostic {
    pub error: QccErrorLoc,
    pub line: String,
}

pub struct DiagnosticView {
    pub kind: QccErrorKind,
    pub location: LocationView,
    pub line: Seq<char>,
}

impl View for Diagnostic {
    type V = DiagnosticView;

    open spec fn view(&self) -> DiagnosticView {
        DiagnosticView { kind: self.error.0.0, location: self.error.1@, line: self.line@ }
    }
}

impl Diagnostic {
    /// The report as it is printed: the error line, the source line and
    /// the caret.
    pub fn to_string(&self) -> (s: String)
        ensures
            s@ == self.error.report_text(self.line@),
    {
        self.error.report(self.line.as_str())
    }
}

/// The models of a list of diagnostics.
pub open spec fn diagnostic_views(reports: Seq<Diagnostic>) -> Seq<DiagnosticView> {
    Seq::new(reports.len(), |i: int| reports[i]@)
}

/// The text of `buf[line.0..line.1]`; nothing if these are no bounds in
/// `buf`.
pub open spec fn line_text(buf: Seq<u8>, line: (int, int)) -> Seq<char> {
    if 0 <= line.0 <= line.1 <= buf.len() {
        latin(buf.subrange(line.0, line.1))
    } else {
        Seq::empty()
    }
}

/// The place of the end of the input.
pub struct End {
    pub location: LocationView,
    pub line: (int, int),
}

/// The place at which the parser stands when it is at token `pos`: that of
/// the token, or that of the end of the input.
pub open spec fn place_at(tokens: Seq<LexemeView>, pos: int, end: End) -> End {
    if 0 <= pos < tokens.len() {
        End { location: tokens[pos].location, line: tokens[pos].line }
    } else {
        end
    }
}

/// The diagnostic for an error of kind `kind` met at token `pos`.
pub open spec fn diagnostic_at(
    kind: QccErrorKind,
    tokens: Seq<LexemeView>,
    pos: int,
    buf: Seq<u8>,
    end: End,
) -> DiagnosticView {
    let place = place_at(tokens, pos, end);
    DiagnosticView { kind, location: place.location, line: line_text(buf, place.line) }
}

/// Whether the program has a module of this name.
pub open spec fn module_known(p: Seq<ModuleView>, name: Seq<char>) -> bool {
    exists|i: int| 0 <= i < p.len() && #[trigger] p[i].name == name
}

/// Whether the program has a module of this name that defines this
/// function.
pub open spec fn import_known(p: Seq<ModuleView>, module: Seq<char>, function: Seq<char>) -> bool {
    exists|i: int| 0 <= i < p.len() && #[trigger] p[i].name == module && p[i].defines(function)
}

/// What was made of a source file so far.
pub struct Unit {
    /// the modules known before, and those the file defines by `module`
    pub program: Seq<ModuleView>,
    /// the module of the file itself
    pub this: ModuleView,
    /// the imports that were accepted
    pub imports: Seq<ImportView>,
    /// the diagnostics made
    pub reports: Seq<DiagnosticView>,
}

/// What the import at `pos` makes of `unit`: an import that names a
/// function of a known module is taken down; any other is reported, at the
/// name that is not known.
pub open spec fn with_import(unit: Unit, tokens: Seq<LexemeView>, pos: int, buf: Seq<u8>) -> Unit {
    let i = import_at(tokens, pos);
    let line = line_text(buf, tokens[pos].line);
    match i.value {
        Err(kind) => Unit {
            reports: unit.reports.push(
                DiagnosticView { kind, location: LocationView::unknown(), line },
            ),
            ..unit
        },
        Ok(import) => if import_known(unit.program, import.module, import.function) {
            Unit { imports: unit.imports.push(import), ..unit }
        } else if module_known(unit.program, import.module) {
            Unit {
                reports: unit.reports.push(
                    DiagnosticView {
                        kind: QccErrorKind::UnknownImport,
                        location: import.function_location,
                        line,
                    },
                ),
                ..unit
            }
        } else {
            Unit {
                reports: unit.reports.push(
                    DiagnosticView {
                        kind: QccErrorKind::UnknownModName,
                        location: import.module_location,
                        line,
                    },
                ),
                ..unit
            }
        },
    }
}

/// What the tokens from `pos` on make of `unit`.
///
/// `module` starts a module of its own, which joins the program. `#` and
/// `fn` start a function of the module of the file; a second function of
/// the same name is refused, and reported where it starts. `import` starts
/// an import. Any other token is passed over. A production that fails is
/// reported at the token it stopped at, and reading goes on from there.
pub open spec fn top_at(tokens: Seq<LexemeView>, pos: int, unit: Unit, buf: Seq<u8>, end: End) -> Unit
    decreases tokens.len() - pos,
{
    if pos < 0 || pos >= tokens.len() {
        unit
    } else {
        match tokens[pos].token {
            Token::Module => {
                let m = module_at(tokens, pos);
                if m.next <= pos || m.next > tokens.len() {
                    unit
                } else {
                    match m.value {
                        Ok(x) => top_at(
                            tokens,
                            m.next,
                            Unit { program: unit.program.push(x), ..unit },
                            buf,
                            end,
                        ),
                        Err(kind) => top_at(
                            tokens,
                            m.next,
                            Unit {
                                reports: unit.reports.push(
                                    diagnostic_at(kind, tokens, m.next, buf, end),
                                ),
                                ..unit
                            },
                            buf,
                            end,
                        ),
                    }
                }
            },
            Token::Hash | Token::Function => {
                let f = function_at(tokens, pos);
                if f.next <= pos || f.next > tokens.len() {
                    unit
                } else {
                    match f.value {
                        Ok(x) => if unit.this.defines(x.name) {
                            top_at(
                                tokens,
                                f.next,
                                Unit {
                                    reports: unit.reports.push(
                                        diagnostic_at(
                                            QccErrorKind::RedefinedFunction,
                                            tokens,
                                            pos,
                                            buf,
                                            end,
                                        ),
                                    ),
                                    ..unit
                                },
                                buf,
                                end,
                            )
                        } else {
                            top_at(
                                tokens,
                                f.next,
                                Unit {
                                    this: ModuleView {
                                        functions: unit.this.functions.push(x),
                                        ..unit.this
                                    },
                                    ..unit
                                },
                                buf,
                                end,
                            )
                        },
                        Err(kind) => top_at(
                            tokens,
                            f.next,
                            Unit {
                                reports: unit.reports.push(
                                    diagnostic_at(kind, tokens, f.next, buf, end),
                                ),
                                ..unit
                            },
                            buf,
                            end,
                        ),
                    }
                }
            },
            Token::Import => {
                let i = import_at(tokens, pos);
                if i.next <= pos || i.next > tokens.len() {
                    unit
                } else {
                    top_at(tokens, i.next, with_import(unit, tokens, pos, buf), buf, end)
                }
            },
            _ => top_at(tokens, pos + 1, unit, buf, end),
        }
    }
}

/// Module `m` with the calls of the first `k` imported functions rewritten
/// to their mangled names.
pub open spec fn linked(m: ModuleView, imports: Seq<ImportView>, k: nat) -> ModuleView
    decreases k,
{
    if k == 0 || k > imports.len() {
        m
    } else {
        renamed_module(
            linked(m, imports, (k - 1) as nat),
            RenameView::Import { module: imports[k - 1].module, name: imports[k - 1].function },
        )
    }
}

/// Whether the function that a call names is known: it is a function of
/// the module the call stands in, or its name is that of a function of the
/// program with the name of its module before it.
pub open spec fn target_known(name: Seq<char>, m: ModuleView, p: Seq<ModuleView>) -> bool {
    m.defines(name) || exists|i: int, j: int|
        0 <= i < p.len() && 0 <= j < p[i].functions.len() && name == #[trigger] mangled(
            p[i].name,
            p[i].functions[j].name,
        )
}

/// The first call in `e` whose name `ok` does not accept, if there is one.
/// The call itself comes before its arguments, and parts that stand first
/// come first.
pub open spec fn first_failing(e: ExprView, ok: spec_fn(Seq<char>) -> bool) -> Option<FunctionRefView>
    decreases e, 0nat,
{
    match e {
        ExprView::Var(_) => None,
        ExprView::Literal(_) => None,
        ExprView::BinaryExpr(lhs, _, rhs) => match first_failing(*lhs, ok) {
            Some(f) => Some(f),
            None => first_failing(*rhs, ok),
        },
        ExprView::Tensor(items) => first_failing_in(items, items.len(), ok),
        ExprView::FnCall(f, args) => if !ok(f.name) {
            Some(f)
        } else {
            first_failing_in(args, args.len(), ok)
        },
        ExprView::Let(_, val) => first_failing(*val, ok),
        ExprView::Assign(_, val) => first_failing(*val, ok),
        ExprView::Conditional(cond, yes, no) => match first_failing(*cond, ok) {
            Some(f) => Some(f),
            None => match first_failing_in(yes, yes.len(), ok) {
                Some(f) => Some(f),
                None => first_failing_in(no, no.len(), ok),
            },
        },
    }
}

/// The first call in the first `k` of `items` whose name `ok` does not
/// accept, if there is one.
pub open spec fn first_failing_in(items: Seq<ExprView>, k: nat, ok: spec_fn(Seq<char>) -> bool) -> Option<
    FunctionRefView,
>
    decreases items, k,
{
    if k == 0 || k > items.len() {
        None
    } else {
        match first_failing_in(items, (k - 1) as nat, ok) {
            Some(f) => Some(f),
            None => first_failing(items[k - 1], ok),
        }
    }
}

/// The names of the functions that a call in module `m` of program `p` may
/// name.
pub open spec fn known_in(m: ModuleView, p: Seq<ModuleView>) -> spec_fn(Seq<char>) -> bool {
    |name: Seq<char>| target_known(name, m, p)
}

/// The first call in `e` of a function that is not known, if there is one.
pub open spec fn first_unknown(e: ExprView, m: ModuleView, p: Seq<ModuleView>) -> Option<
    FunctionRefView,
> {
    first_failing(e, known_in(m, p))
}

/// The first call in the first `k` of `items` of a function that is not
/// known, if there is one.
pub open spec fn first_unknown_in(items: Seq<ExprView>, k: nat, m: ModuleView, p: Seq<ModuleView>) -> Option<
    FunctionRefView,
> {
    first_failing_in(items, k, known_in(m, p))
}

/// The diagnostics for the first `k` functions of `m`: one for each
/// function that calls a function that is not known, at the first such
/// call.
pub open spec fn unknown_in_module(m: ModuleView, p: Seq<ModuleView>, k: nat) -> Seq<DiagnosticView>
    decreases k,
{
    if k == 0 || k > m.functions.len() {
        Seq::empty()
    } else {
        let before = unknown_in_module(m, p, (k - 1) as nat);
        let body = m.functions[k - 1].body;
        match first_unknown_in(body, body.len(), m, p) {
            Some(f) => before.push(
                DiagnosticView {
                    kind: QccErrorKind::UnknownImport,
                    location: f.location,
                    line: Seq::empty(),
                },
            ),
            None => before,
        }
    }
}

/// The diagnostics for the first `k` modules of `p`.
pub open spec fn unknown_in_program(p: Seq<ModuleView>, k: nat) -> Seq<DiagnosticView>
    decreases k,
{
    if k == 0 || k > p.len() {
        Seq::empty()
    } else {
        unknown_in_program(p, (k - 1) as nat) + unknown_in_module(
            p[k - 1],
            p,
            p[k - 1].functions.len(),
        )
    }
}

/// Every call in the program names a function that is known.
#[verifier::opaque]
pub open spec fn calls_known(p: Seq<ModuleView>) -> bool {
    forall|i: int, j: int|
        0 <= i < p.len() && 0 <= j < p[i].functions.len() ==> first_unknown_in(
            #[trigger] p[i].functions[j].body,
            p[i].functions[j].body.len(),
            p[i],
            p,
        ) is None
}

/// The diagnostic for the first byte of a source that starts no token: it
/// is placed at that byte.
pub open spec fn lexer_report(buf: Seq<u8>, path: Seq<char>) -> DiagnosticView {
    let s = first_bad(buf, 0)->0;
    DiagnosticView {
        kind: QccErrorKind::LexerError,
        location: LocationView { path, row: row_of(buf, s), col: col_of(buf, s) as nat },
        line: line_text(buf, (line_start(buf, s), line_end(buf, s))),
    }
}

/// The name of the module of a source file: the name of the file without
/// `.ql` at its end, sanitized.
pub open spec fn module_name(src: Seq<char>) -> Seq<char> {
    sanitized(encode_utf8(basename(src).subrange(0, basename(src).len() - 3)))
}

/// What a source file makes of the modules known before it.
pub struct Outcome {
    pub program: Seq<ModuleView>,
    pub reports: Seq<DiagnosticView>,
}

/// The program that the tokens of the file `src` define, together with the
/// modules `known` before: the modules the file defines come behind them,
/// and the module of the file itself comes last. The calls of imported
/// functions in that module are rewritten to their mangled names. At the
/// end every call has to name a function that is known.
pub open spec fn parsed(
    tokens: Seq<LexemeView>,
    buf: Seq<u8>,
    known: Seq<ModuleView>,
    src: Seq<char>,
    end: End,
) -> Outcome {
    let start = Unit {
        program: known,
        this: ModuleView {
            name: module_name(src),
            location: LocationView { path: src, row: 1, col: 1 },
            functions: Seq::empty(),
        },
        imports: Seq::empty(),
        reports: Seq::empty(),
    };
    let unit = top_at(tokens, 0, start, buf, end);
    let program = unit.program.push(linked(unit.this, unit.imports, unit.imports.len()));
    Outcome { program, reports: unit.reports + unknown_in_program(program, program.len()) }
}

/// A parsing session on one source file.
pub struct Parser {
    pub config: Config,
    pub lexer: Lexer,
    /// the modules that are known before the file is read
    pub known: Qast,
    /// the diagnostics of the last parse
    pub reports: Vec<Diagnostic>,
}

/// The names of the modules that the import statements among the first
/// `k` tokens name, in order.
pub open spec fn import_names(tokens: Seq<LexemeView>, k: nat) -> Seq<Seq<char>>
    decreases k,
{
    if k == 0 || k > tokens.len() {
        Seq::empty()
    } else {
        let before = import_names(tokens, (k - 1) as nat);
        if tokens[k - 1].token == Token::Import && crate::grammar::is_at(
            tokens,
            k as int,
            Token::Identifier,
        ) {
            before.push(tokens[k as int].text())
        } else {
            before
        }
    }
}

/// Whether a path ends in `.ql`.
pub open spec fn is_source(src: Seq<char>) -> bool {
    src.len() >= 3 && src[src.len() - 3] == '.' && src[src.len() - 2] == 'q' && src[src.len() - 1]
        == 'l'
}

/// The place of the end of the buffer.
pub open spec fn end_of(buf: Seq<u8>, path: Seq<char>) -> End {
    End {
        location: LocationView {
            path,
            row: row_of(buf, buf.len() as int),
            col: col_of(buf, buf.len() as int) as nat,
        },
        line: (line_start(buf, buf.len() as int), line_end(buf, buf.len() as int)),
    }
}

/// The models of a list of imports.
pub open spec fn import_views(imports: Seq<Import>) -> Seq<ImportView> {
    Seq::new(imports.len(), |i: int| imports[i]@)
}

/// A program with no report of an unknown function calls known functions
/// only.
pub proof fn lemma_no_unknown(p: Seq<ModuleView>)
    requires
        unknown_in_program(p, p.len()).len() == 0,
    ensures
        calls_known(p),
{
    reveal(calls_known);
    assert forall|i: int, j: int| 0 <= i < p.len() && 0 <= j < p[i].functions.len() implies first_unknown_in(
        #[trigger] p[i].functions[j].body,
        p[i].functions[j].body.len(),
        p[i],
        p,
    ) is None by {
        lemma_no_unknown_module(p, p.len(), i);
        lemma_no_unknown_function(p[i], p, p[i].functions.len(), j);
    }
}

proof fn lemma_no_unknown_module(p: Seq<ModuleView>, k: nat, i: int)
    requires
        0 <= i < k <= p.len(),
        unknown_in_program(p, k).len() == 0,
    ensures
        unknown_in_module(p[i], p, p[i].functions.len()).len() == 0,
    decreases k,
{
    if i < k - 1 {
        lemma_no_unknown_module(p, (k - 1) as nat, i);
    }
}

proof fn lemma_no_unknown_function(m: ModuleView, p: Seq<ModuleView>, k: nat, j: int)
    requires
        0 <= j < k <= m.functions.len(),
        unknown_in_module(m, p, k).len() == 0,
    ensures
        first_unknown_in(m.functions[j].body, m.functions[j].body.len(), m, p) is None,
    decreases k,
{
    if j < k - 1 {
        lemma_no_unknown_function(m, p, (k - 1) as nat, j);
    }
}

/// Whether the function that a call names is known.
fn known_target(name: &Ident, m: &ModuleAST, p: &Vec<ModuleAST>) -> (r: bool)
    ensures
        r == target_known(name@, m@, module_views(p@)),
{
    if m.defines(name) {
        return true;
    }
    let ghost pv = module_views(p@);
    let mut i: usize = 0;
    while i < p.len()
        invariant
            i <= p@.len(),
            pv == module_views(p@),
            forall|a: int, b: int|
                0 <= a < i && 0 <= b < pv[a].functions.len() ==> name@ != #[trigger] mangled(
                    pv[a].name,
                    pv[a].functions[b].name,
                ),
        decreases p@.len() - i,
    {
        let x = &p[i];
        assert(pv[i as int] == x@);
        let mut j: usize = 0;
        while j < x.functions.len()
            invariant
                i < p@.len(),
                pv == module_views(p@),
                pv[i as int] == x@,
                j <= x.functions@.len(),
                x@.functions.len() == x.functions@.len(),
                forall|b: int| 0 <= b < j ==> name@ != #[trigger] mangled(x@.name, x@.functions[b].name),
            decreases x.functions@.len() - j,
        {
            let g = &x.functions[j];
            assert(x@.functions[j as int] == g@);
            if mangle_name(&x.name, &g.name) == *name {
                assert(name@ == mangled(pv[i as int].name, pv[i as int].functions[j as int].name));
                return true;
            }
            j = j + 1;
        }
        i = i + 1;
    }
    false
}

/// Finds the first call in `items` of a function that is not known.
fn find_unknown_in(items: &Vec<Expr>, m: &ModuleAST, p: &Vec<ModuleAST>) -> (r: Option<FunctionRef>)
    ensures
        match first_unknown_in(views(items@), items@.len(), m@, module_views(p@)) {
            Some(f) => r is Some && r->0@ == f,
            None => r is None,
        },
    decreases items, 1nat,
{
    let mut i: usize = 0;
    while i < items.len()
        invariant
            i <= items@.len(),
            first_unknown_in(views(items@), i as nat, m@, module_views(p@)) is None,
        decreases items@.len() - i,
    {
        let found = find_unknown(&items[i], m, p);
        i = i + 1;
        if found.is_some() {
            proof {
                lemma_first_failing_stays(
                    views(items@),
                    i as nat,
                    items@.len(),
                    known_in(m@, module_views(p@)),
                );
            }
            return found;
        }
    }
    None
}

/// What was found among the first items is found among all.
proof fn lemma_first_failing_stays(items: Seq<ExprView>, k: nat, n: nat, ok: spec_fn(Seq<char>) -> bool)
    requires
        k <= n <= items.len(),
        first_failing_in(items, k, ok) is Some,
    ensures
        first_failing_in(items, n, ok) == first_failing_in(items, k, ok),
    decreases n - k,
{
    if k < n {
        lemma_first_failing_stays(items, k, (n - 1) as nat, ok);
    }
}

/// Finds the first call in `e` of a function that is not known.
fn find_unknown(e: &Expr, m: &ModuleAST, p: &Vec<ModuleAST>) -> (r: Option<FunctionRef>)
    ensures
        match first_unknown(e@, m@, module_views(p@)) {
            Some(f) => r is Some && r->0@ == f,
            None => r is None,
        },
    decreases e, 0nat,
{
    proof {
        lemma_expr_view(*e);
    }
    match e {
        Expr::Var(_) => None,
        Expr::Literal(_) => None,
        Expr::BinaryExpr(lhs, _, rhs) => {
            let found = find_unknown(lhs, m, p);
            if found.is_some() {
                found
            } else {
                find_unknown(rhs, m, p)
            }
        },
        Expr::Tensor(items) => find_unknown_in(items, m, p),
        Expr::FnCall(f, args) => {
            if !known_target(&f.name, m, p) {
                Some(f.clone())
            } else {
                find_unknown_in(args, m, p)
            }
        },
        Expr::Let(_, val) => find_unknown(val, m, p),
        Expr::Assign(_, val) => find_unknown(val, m, p),
        Expr::Conditional(cond, yes, no) => {
            let found = find_unknown(cond, m, p);
            if found.is_some() {
                return found;
            }
            let found = find_unknown_in(yes, m, p);
            if found.is_some() {
                return found;
            }
            find_unknown_in(no, m, p)
        },
    }
}

/// Makes the diagnostics for the calls of unknown functions in a program.
fn check_calls(p: &Vec<ModuleAST>, reports: &mut Vec<Diagnostic>)
    ensures
        diagnostic_views(final(reports)@) == diagnostic_views(old(reports)@) + unknown_in_program(
            module_views(p@),
            p@.len(),
        ),
{
    let ghost pv = module_views(p@);
    let ghost start = diagnostic_views(reports@);
    let mut i: usize = 0;
    assert(start + unknown_in_program(pv, 0) =~= start);
    while i < p.len()
        invariant
            i <= p@.len(),
            pv == module_views(p@),
            diagnostic_views(reports@) == start + unknown_in_program(pv, i as nat),
        decreases p@.len() - i,
    {
        let m = &p[i];
        assert(pv[i as int] == m@);
        let ghost before = diagnostic_views(reports@);
        let mut j: usize = 0;
        assert(before + unknown_in_module(m@, pv, 0) =~= before);
        while j < m.functions.len()
            invariant
                j <= m.functions@.len(),
                m@.functions.len() == m.functions@.len(),
                pv == module_views(p@),
                diagnostic_views(reports@) == before + unknown_in_module(m@, pv, j as nat),
            decreases m.functions@.len() - j,
        {
            let f = &m.functions[j];
            assert(m@.functions[j as int] == f@);
            let ghost told = diagnostic_views(reports@);
            match find_unknown_in(&f.body, m, p) {
                Some(call) => {
                    let d = Diagnostic {
                        error: QccErrorLoc(QccError(QccErrorKind::UnknownImport), call.location),
                        line: String::new(),
                    };
                    reports.push(d);
                    proof {
                        assert(diagnostic_views(reports@) =~= told.push(d@));
                        assert(told.push(d@) =~= before + unknown_in_module(m@, pv, (j + 1) as nat));
                    }
                },
                None => {},
            }
            j = j + 1;
        }
        i = i + 1;
        proof {
            assert(diagnostic_views(reports@) =~= start + unknown_in_program(pv, i as nat));
        }
    }
}

/// The text of a line of the buffer, given its bounds.
fn text_of_line(lexer: &Lexer, line: (usize, usize)) -> (s: String)
    ensures
        s@ == line_text(lexer.buffer@, (line.0 as int, line.1 as int)),
{
    if line.0 <= line.1 && line.1 <= lexer.buffer.len() {
        lexer.slice(line.0, line.1)
    } else {
        String::new()
    }
}

/// Makes the diagnostic for an error met at token `pos`.
fn diagnostic(lexer: &Lexer, tokens: &Vec<Lexeme>, kind: QccErrorKind, pos: usize) -> (d: Diagnostic)
    requires
        lexer.wf(),
        lexer.ptr.prev == lexer.buffer@.len(),
    ensures
        d@ == diagnostic_at(
            kind,
            lexeme_views(tokens@),
            pos as int,
            lexer.buffer@,
            end_of(lexer.buffer@, lexer.location.path@),
        ),
{
    if pos < tokens.len() {
        let t = &tokens[pos];
        Diagnostic {
            error: QccErrorLoc(QccError(kind), t.location.clone()),
            line: text_of_line(lexer, t.line),
        }
    } else {
        proof {
            lemma_line_bounds(lexer.buffer@, lexer.buffer@.len() as int);
        }
        Diagnostic {
            error: QccErrorLoc(QccError(kind), lexer.location.clone()),
            line: text_of_line(lexer, (lexer.ptr.start, lexer.ptr.end)),
        }
    }
}

/// Whether the program has a module `module` that defines `function`, and
/// whether it has a module `module` at all.
fn look_up(p: &Vec<ModuleAST>, module: &Ident, function: &Ident) -> (r: (bool, bool))
    ensures
        r.0 == import_known(module_views(p@), module@, function@),
        r.1 == module_known(module_views(p@), module@),
{
    let ghost pv = module_views(p@);
    let mut seen = false;
    let mut i: usize = 0;
    while i < p.len()
        invariant
            i <= p@.len(),
            pv == module_views(p@),
            seen == exists|a: int| 0 <= a < i && #[trigger] pv[a].name == module@,
            forall|a: int| 0 <= a < i ==> !(#[trigger] pv[a].name == module@ && pv[a].defines(function@)),
        decreases p@.len() - i,
    {
        let m = &p[i];
        assert(pv[i as int] == m@);
        if m.name == *module {
            seen = true;
            assert(pv[i as int].name == module@);
            if m.defines(function) {
                assert(pv[i as int].name == module@ && pv[i as int].defines(function@));
                return (true, true);
            }
        }
        i = i + 1;
    }
    (false, seen)
}

/// What the parser holds, as the grammar sees it.
pub open spec fn unit_of(
    program: Seq<ModuleAST>,
    this: ModuleAST,
    imports: Seq<Import>,
    reports: Seq<Diagnostic>,
) -> Unit {
    Unit {
        program: module_views(program),
        this: this@,
        imports: import_views(imports),
        reports: diagnostic_views(reports),
    }
}

/// Takes the module that starts at `pos`.
fn take_module(
    lexer: &Lexer,
    tokens: &Vec<Lexeme>,
    pos: usize,
    program: &mut Vec<ModuleAST>,
    this: &ModuleAST,
    imports: &Vec<Import>,
    reports: &mut Vec<Diagnostic>,
) -> (next: usize)
    requires
        lexer.wf(),
        lexer.ptr.prev == lexer.buffer@.len(),
        pos < tokens@.len(),
        tokens@[pos as int].token == Token::Module,
    ensures
        pos < next <= tokens@.len(),
        top_at(
            lexeme_views(tokens@),
            pos as int,
            unit_of(old(program)@, *this, imports@, old(reports)@),
            lexer.buffer@,
            end_of(lexer.buffer@, lexer.location.path@),
        ) == top_at(
            lexeme_views(tokens@),
            next as int,
            unit_of(final(program)@, *this, imports@, final(reports)@),
            lexer.buffer@,
            end_of(lexer.buffer@, lexer.location.path@),
        ),
{
    let ghost told = diagnostic_views(reports@);
    assert(lexeme_views(tokens@)[pos as int] == tokens@[pos as int]@);
    let m = Parser::parse_module(tokens, pos);
    match m.value {
        Ok(x) => {
            let ghost before = module_views(program@);
            program.push(x);
            assert(module_views(program@) =~= before.push(x@));
        },
        Err(kind) => {
            let d = diagnostic(lexer, tokens, kind, m.next);
            reports.push(d);
            assert(diagnostic_views(reports@) =~= told.push(d@));
        },
    }
    m.next
}

/// Takes the function that starts at `pos`.
fn take_function(
    lexer: &Lexer,
    tokens: &Vec<Lexeme>,
    pos: usize,
    program: &Vec<ModuleAST>,
    this: &mut ModuleAST,
    imports: &Vec<Import>,
    reports: &mut Vec<Diagnostic>,
) -> (next: usize)
    requires
        lexer.wf(),
        lexer.ptr.prev == lexer.buffer@.len(),
        pos < tokens@.len(),
        tokens@[pos as int].token == Token::Hash || tokens@[pos as int].token == Token::Function,
    ensures
        pos < next <= tokens@.len(),
        top_at(
            lexeme_views(tokens@),
            pos as int,
            unit_of(program@, *old(this), imports@, old(reports)@),
            lexer.buffer@,
            end_of(lexer.buffer@, lexer.location.path@),
        ) == top_at(
            lexeme_views(tokens@),
            next as int,
            unit_of(program@, *final(this), imports@, final(reports)@),
            lexer.buffer@,
            end_of(lexer.buffer@, lexer.location.path@),
        ),
{
    let ghost told = diagnostic_views(reports@);
    assert(lexeme_views(tokens@)[pos as int] == tokens@[pos as int]@);
    let f = Parser::parse_function(tokens, pos);
    match f.value {
        Ok(x) => {
            match this.append_function(x) {
                Ok(()) => {},
                Err(kind) => {
                    let d = diagnostic(lexer, tokens, kind, pos);
                    reports.push(d);
                    assert(diagnostic_views(reports@) =~= told.push(d@));
                },
            }
        },
        Err(kind) => {
            let d = diagnostic(lexer, tokens, kind, f.next);
            reports.push(d);
            assert(diagnostic_views(reports@) =~= told.push(d@));
        },
    }
    f.next
}

/// Takes the import that starts at `pos`.
fn take_import(
    lexer: &Lexer,
    tokens: &Vec<Lexeme>,
    pos: usize,
    program: &Vec<ModuleAST>,
    this: &ModuleAST,
    imports: &mut Vec<Import>,
    reports: &mut Vec<Diagnostic>,
) -> (next: usize)
    requires
        lexer.wf(),
        lexer.ptr.prev == lexer.buffer@.len(),
        pos < tokens@.len(),
        tokens@[pos as int].token == Token::Import,
    ensures
        pos < next <= tokens@.len(),
        top_at(
            lexeme_views(tokens@),
            pos as int,
            unit_of(program@, *this, old(imports)@, old(reports)@),
            lexer.buffer@,
            end_of(lexer.buffer@, lexer.location.path@),
        ) == top_at(
            lexeme_views(tokens@),
            next as int,
            unit_of(program@, *this, final(imports)@, final(reports)@),
            lexer.buffer@,
            end_of(lexer.buffer@, lexer.location.path@),
        ),
{
    let ghost told = diagnostic_views(reports@);
    let ghost unit = unit_of(program@, *this, imports@, reports@);
    assert(lexeme_views(tokens@)[pos as int] == tokens@[pos as int]@);
    let i = Parser::parse_import(tokens, pos);
    let line = text_of_line(lexer, tokens[pos].line);
    match i.value {
        Err(kind) => {
            let d = Diagnostic { error: QccErrorLoc(QccError(kind), Location::default()), line };
            reports.push(d);
            assert(diagnostic_views(reports@) =~= told.push(d@));
        },
        Ok(import) => {
            let (whole, part) = look_up(program, &import.module, &import.function);
            if whole {
                let ghost before = import_views(imports@);
                imports.push(import);
                assert(import_views(imports@) =~= before.push(import@));
            } else if part {
                let d = Diagnostic {
                    error: QccErrorLoc(
                        QccError(QccErrorKind::UnknownImport),
                        import.function_location,
                    ),
                    line,
                };
                reports.push(d);
                assert(diagnostic_views(reports@) =~= told.push(d@));
            } else {
                let d = Diagnostic {
                    error: QccErrorLoc(
                        QccError(QccErrorKind::UnknownModName),
                        import.module_location,
                    ),
                    line,
                };
                reports.push(d);
                assert(diagnostic_views(reports@) =~= told.push(d@));
            }
        },
    }
    assert(unit_of(program@, *this, imports@, reports@) == with_import(
        unit,
        lexeme_views(tokens@),
        pos as int,
        lexer.buffer@,
    ));
    i.next
}

/// Reads all modules, functions and imports of a file.
fn read_all(lexer: &Lexer, tokens: &Vec<Lexeme>, known: Vec<ModuleAST>, this: ModuleAST) -> (r: (
    Vec<ModuleAST>,
    ModuleAST,
    Vec<Import>,
    Vec<Diagnostic>,
))
    requires
        lexer.wf(),
        lexer.ptr.prev == lexer.buffer@.len(),
    ensures
        unit_of(r.0@, r.1, r.2@, r.3@) == top_at(
            lexeme_views(tokens@),
            0,
            Unit {
                program: module_views(known@),
                this: this@,
                imports: Seq::empty(),
                reports: Seq::empty(),
            },
            lexer.buffer@,
            end_of(lexer.buffer@, lexer.location.path@),
        ),
{
    let ghost tv = lexeme_views(tokens@);
    let ghost buf = lexer.buffer@;
    let ghost end = end_of(buf, lexer.location.path@);
    let ghost start = Unit {
        program: module_views(known@),
        this: this@,
        imports: Seq::empty(),
        reports: Seq::empty(),
    };
    let mut program = known;
    let mut this = this;
    let mut imports: Vec<Import> = Vec::new();
    let mut reports: Vec<Diagnostic> = Vec::new();
    proof {
        assert(import_views(imports@) =~= Seq::<ImportView>::empty());
        assert(diagnostic_views(reports@) =~= Seq::<DiagnosticView>::empty());
        assert(unit_of(program@, this, imports@, reports@) == start);
    }
    let mut pos: usize = 0;
    while pos < tokens.len()
        invariant
            pos <= tokens@.len(),
            tv == lexeme_views(tokens@),
            lexer.wf(),
            lexer.buffer@ == buf,
            lexer.ptr.prev == buf.len(),
            end == end_of(buf, lexer.location.path@),
            top_at(tv, 0, start, buf, end) == top_at(
                tv,
                pos as int,
                unit_of(program@, this, imports@, reports@),
                buf,
                end,
            ),
        decreases tokens@.len() - pos,
    {
        assert(tv[pos as int] == tokens@[pos as int]@);
        match tokens[pos].token {
            Token::Module => {
                pos = take_module(lexer, tokens, pos, &mut program, &this, &imports, &mut reports);
            },
            Token::Hash | Token::Function => {
                pos = take_function(lexer, tokens, pos, &program, &mut this, &imports, &mut reports);
            },
            Token::Import => {
                pos = take_import(lexer, tokens, pos, &program, &this, &mut imports, &mut reports);
            },
            _ => {
                pos = pos + 1;
            },
        }
    }
    (program, this, imports, reports)
}

/// Rewrites the calls of the imported functions in the module of the file
/// and puts the module at the end of the program.
fn link_all(program: Vec<ModuleAST>, this: ModuleAST, imports: &Vec<Import>) -> (r: Vec<ModuleAST>)
    ensures
        module_views(r@) == module_views(program@).push(
            linked(this@, import_views(imports@), imports@.len()),
        ),
{
    let mut program = program;
    let mut this = this;
    let ghost first = this@;
    let mut k: usize = 0;
    while k < imports.len()
        invariant
            k <= imports@.len(),
            this@ == linked(first, import_views(imports@), k as nat),
        decreases imports@.len() - k,
    {
        let _ = mangle_module(&mut this, imports[k].module.clone(), imports[k].function.clone());
        k = k + 1;
    }
    let ghost before = module_views(program@);
    program.push(this);
    proof {
        assert(module_views(program@) =~= before.push(this@));
    }
    program
}

/// Makes the program of a file from its tokens.
fn assemble(lexer: &Lexer, tokens: &Vec<Lexeme>, known: Vec<ModuleAST>, src: &String) -> (r: (
    Vec<ModuleAST>,
    Vec<Diagnostic>,
))
    requires
        lexer.wf(),
        lexer.ptr.prev == lexer.buffer@.len(),
        is_source(src@),
    ensures
        module_views(r.0@) == parsed(
            lexeme_views(tokens@),
            lexer.buffer@,
            module_views(known@),
            src@,
            end_of(lexer.buffer@, lexer.location.path@),
        ).program,
        diagnostic_views(r.1@) == parsed(
            lexeme_views(tokens@),
            lexer.buffer@,
            module_views(known@),
            src@,
            end_of(lexer.buffer@, lexer.location.path@),
        ).reports,
        r.1@.len() == 0 ==> calls_known(module_views(r.0@)),
        plain_tokens(lexeme_views(tokens@)) && plain_names(module_views(known@)) ==> plain_names(
            module_views(r.0@),
        ),
{
    proof {
        if plain_tokens(lexeme_views(tokens@)) && plain_names(module_views(known@)) {
            lemma_parsed_plain(
                lexeme_views(tokens@),
                lexer.buffer@,
                module_views(known@),
                src@,
                end_of(lexer.buffer@, lexer.location.path@),
            );
        }
    }
    let this = ModuleAST::new(Parser::name_of(src), Location::new(src.as_str(), 1, 1), Vec::new());
    proof {
        assert(this@.functions =~= Seq::<FunctionView>::empty());
    }
    let (program, this, imports, mut reports) = read_all(lexer, tokens, known, this);
    let program = link_all(program, this, &imports);
    check_calls(&program, &mut reports);
    proof {
        if reports@.len() == 0 {
            assert(diagnostic_views(reports@).len() == 0);
            assert(unknown_in_program(module_views(program@), program@.len() as nat).len() == 0);
            lemma_no_unknown(module_views(program@));
        }
    }
    (program, reports)
}

impl Parser {
    /// Reads the arguments of the command line into a configuration. `None`
    /// says that help was asked for. An unknown option is refused, and so
    /// is a command line that names no source file. Whether the file exists
    /// is for the caller to find out.
    pub fn parse_cmdline(args: Vec<&str>) -> (r: Result<Option<Config>, QccError>)
        ensures
            args@.len() == 0 ==> r == Err::<Option<Config>, QccError>(
                QccError(QccErrorKind::InvalidArgs),
            ),
            args@.len() > 0 ==> match cmdline(arg_views(args@), args@.len()) {
                Cmdline::Help => r == Ok::<Option<Config>, QccError>(None),
                Cmdline::Bad(kind) => r == Err::<Option<Config>, QccError>(QccError(kind)),
                Cmdline::Going(o) => if o.src.len() == 0 {
                    r == Err::<Option<Config>, QccError>(QccError(QccErrorKind::NoFile))
                } else {
                    r is Ok && r->Ok_0 is Some && configured(r->Ok_0->0, o)
                },
            },
    {
        if args.len() < 1 {
            return Err(QccError(QccErrorKind::InvalidArgs));
        }
        let ghost all = arg_views(args@);
        let mut config = Config::new();
        let mut pending: u8 = 0;
        let mut i: usize = 0;
        while i < args.len()
            invariant
                i <= args@.len(),
                all == arg_views(args@),
                cmdline(all, i as nat) is Going,
                configured(config, cmdline(all, i as nat)->Going_0),
                cmdline(all, i as nat)->Going_0.pending == pending,
            decreases args@.len() - i,
        {
            let option = args[i];
            assert(all[i as int] == option@);
            i = i + 1;
            if same(option, "--help") || same(option, "-h") {
                proof {
                    lemma_cmdline_ended(all, i as nat, args@.len() as nat);
                }
                return Ok(None);
            } else if same(option, "--analyze") {
                config.analyzer.status = true;
            } else if same(option, "--dump-ast") {
                config.print_ast = true;
            } else if same(option, "--dump-ast-only") {
                config.print_ast_only = true;
            } else if same(option, "--dump-qasm") {
                config.print_qasm = true;
            } else if same(option, "-O0") {
                config.optimizer.level = 0;
            } else if same(option, "-O1") {
                config.optimizer.level = 1;
            } else if same(option, "-O2") {
                config.optimizer.level = 2;
            } else if same(option, "-Og") {
                config.optimizer.level = 3;
            } else if same(option, "-o") {
                pending = 1;
            } else if dashed(option) {
                proof {
                    lemma_cmdline_ended(all, i as nat, args@.len() as nat);
                }
                return Err(QccError(QccErrorKind::NoSuchArg));
            } else if pending == 1 {
                config.optimizer.output = String::from_str(option);
                pending = 2;
            } else {
                config.analyzer.src = String::from_str(option);
                if pending == 0 {
                    config.optimizer.output = retarget(option);
                }
            }
        }
        if config.analyzer.src.as_str().unicode_len() == 0 {
            return Err(QccError(QccErrorKind::NoFile));
        }
        Ok(Some(config))
    }

    /// Starts a session: reads the command line and takes the content of
    /// the source file that it names. `source` is that content, or `None`
    /// if the file could not be read, which is an error. `None` is returned
    /// where help was asked for.
    pub fn new(args: Vec<&str>, source: Option<Vec<u8>>) -> (r: Result<Option<Parser>, QccError>)
        ensures
            args@.len() == 0 ==> r is Err && r->Err_0 == QccError(QccErrorKind::InvalidArgs),
            args@.len() > 0 ==> match cmdline(arg_views(args@), args@.len()) {
                Cmdline::Help => r is Ok && r->Ok_0 is None,
                Cmdline::Bad(kind) => r is Err && r->Err_0 == QccError(kind),
                Cmdline::Going(o) => if o.src.len() == 0 || source is None {
                    r is Err && r->Err_0 == QccError(QccErrorKind::NoFile)
                } else if source->0@.len() >= usize::MAX {
                    r is Err && r->Err_0 == QccError(QccErrorKind::LexerError)
                } else {
                    &&& r is Ok
                    &&& r->Ok_0 is Some
                    &&& configured(r->Ok_0->0.config, o)
                    &&& r->Ok_0->0.lexer.wf()
                    &&& r->Ok_0->0.lexer.buffer == source->0
                    &&& r->Ok_0->0.lexer.location.path@ == o.src
                    &&& r->Ok_0->0.known@.len() == 0
                    &&& r->Ok_0->0.reports@.len() == 0
                },
            },
    {
        let config = match Self::parse_cmdline(args) {
            Err(e) => {
                return Err(e);
            },
            Ok(None) => {
                return Ok(None);
            },
            Ok(Some(config)) => config,
        };
        let buffer = match source {
            None => {
                return Err(QccError(QccErrorKind::NoFile));
            },
            Some(buffer) => buffer,
        };
        if buffer.len() >= usize::MAX {
            return Err(QccError(QccErrorKind::LexerError));
        }
        let lexer = Lexer::new(buffer, config.analyzer.src.clone());
        Ok(Some(Parser { config, lexer, known: Qast::default(), reports: Vec::new() }))
    }

    /// The configuration of the session.
    pub fn get_config(&self) -> (c: Config)
        ensures
            c == self.config,
    {
        self.config.clone()
    }

    /// Makes the modules of `program` known to the session, so that the
    /// source file may import from them. They come first in the program
    /// that `parse` returns.
    pub fn preload(&mut self, program: Qast)
        ensures
            final(self).known == program,
            final(self).config == old(self).config,
            final(self).lexer == old(self).lexer,
            final(self).reports == old(self).reports,
    {
        self.known = program;
    }

    /// The names of the modules that the source file imports from, in the
    /// order of its import statements. The caller has to make these modules
    /// known before it parses the file.
    pub fn imports(&mut self) -> (r: Result<Vec<Ident>, QccError>)
        requires
            old(self).lexer.wf(),
        ensures
            final(self).lexer.wf(),
            final(self).lexer.buffer == old(self).lexer.buffer,
            final(self).lexer.location.path == old(self).lexer.location.path,
            final(self).config == old(self).config,
            final(self).known == old(self).known,
            final(self).reports == old(self).reports,
            match lexemes_of(old(self).lexer.buffer@, old(self).lexer.location.path@) {
                None => r is Err && r->Err_0 == QccError(QccErrorKind::LexerError),
                Some(tokens) => r is Ok && crate::mangler::name_views(r->Ok_0@) == import_names(
                    tokens,
                    tokens.len(),
                ),
            },
    {
        let tokens = match self.lexer.tokenize() {
            Err(e) => {
                return Err(e);
            },
            Ok(tokens) => tokens,
        };
        let ghost tv = lexeme_views(tokens@);
        let mut names: Vec<Ident> = Vec::new();
        let mut k: usize = 0;
        assert(crate::mangler::name_views(names@) =~= import_names(tv, 0));
        while k < tokens.len()
            invariant
                k <= tokens@.len() < usize::MAX,
                tv == lexeme_views(tokens@),
                crate::mangler::name_views(names@) == import_names(tv, k as nat),
            decreases tokens@.len() - k,
        {
            let ghost before = crate::mangler::name_views(names@);
            assert(tv[k as int] == tokens@[k as int]@);
            if tokens[k].token == Token::Import && crate::grammar::at(
                &tokens,
                k + 1,
                Token::Identifier,
            ) {
                assert(tv[k + 1] == tokens@[k + 1]@);
                names.push(tokens[k + 1].text());
                assert(crate::mangler::name_views(names@) =~= before.push(tv[k + 1].text()));
            }
            k = k + 1;
        }
        Ok(names)
    }

    /// The diagnostics of the last parse.
    pub fn diagnostics(&self) -> (d: &Vec<Diagnostic>)
        ensures
            *d == self.reports,
    {
        &self.reports
    }

    /// The name of the module of the source file `src`.
    fn name_of(src: &String) -> (name: Ident)
        requires
            is_source(src@),
        ensures
            name@ == module_name(src@),
    {
        let path = src.as_str();
        let n = path.unicode_len();
        let mut start: usize = n;
        while start > 0 && path.get_char(start - 1) != '/'
            invariant
                start <= n,
                n == path@.len(),
                name_start(path@, n as int) == name_start(path@, start as int),
                n - start <= 3 ==> forall|k: int| start <= k < n ==> path@[k] != '/',
            decreases start,
        {
            start = start - 1;
        }
        proof {
            if n - start < 3 {
                assert(path@[start - 1] == '/');
            }
            assert(path@.subrange(start as int, n as int).subrange(0, n - start - 3) =~= path@.subrange(
                start as int,
                n - 3,
            ));
        }
        sanitize(String::from_str(path.substring_char(start, n - 3)))
    }

    /// Parses the source file whose path is `src`: reads all of its tokens,
    /// then its modules, functions and imports, and returns the program:
    /// the modules that were known before, the modules that the file
    /// defines, and at the end the module of the file itself. Every error
    /// is taken down as a diagnostic and parsing goes on behind it; if
    /// there was any, the parse fails. Only a byte that starts no token ends
    /// the work at once. A program that is returned calls known functions
    /// only.
    pub fn parse(&mut self, src: &String) -> (r: Result<Qast, QccError>)
        requires
            old(self).lexer.wf(),
        ensures
            final(self).lexer.wf(),
            final(self).lexer.buffer == old(self).lexer.buffer,
            final(self).lexer.location.path == old(self).lexer.location.path,
            final(self).config == old(self).config,
            final(self).known == old(self).known,
            !is_source(src@) ==> r is Err && r->Err_0 == QccError(QccErrorKind::ParseError)
                && final(self).reports == old(self).reports,
            is_source(src@) ==> match lexemes_of(old(self).lexer.buffer@, old(self).lexer.location.path@) {
                None => r is Err && r->Err_0 == QccError(QccErrorKind::LexerError)
                    && diagnostic_views(final(self).reports@) == seq![
                    lexer_report(old(self).lexer.buffer@, old(self).lexer.location.path@),
                ],
                Some(tokens) => {
                    let o = parsed(
                        tokens,
                        old(self).lexer.buffer@,
                        old(self).known@,
                        src@,
                        end_of(old(self).lexer.buffer@, old(self).lexer.location.path@),
                    );
                    &&& diagnostic_views(final(self).reports@) == o.reports
                    &&& o.reports.len() == 0 ==> r is Ok && r->Ok_0@ == o.program && calls_known(
                        o.program,
                    ) && (plain_names(old(self).known@) ==> plain_names(o.program))
                    &&& o.reports.len() > 0 ==> r is Err && r->Err_0 == QccError(
                        QccErrorKind::ParseError,
                    )
                },
            },
    {
        let path = src.as_str();
        let n = path.unicode_len();
        if !(n >= 3 && path.get_char(n - 3) == '.' && path.get_char(n - 2) == 'q' && path.get_char(
            n - 1,
        ) == 'l') {
            return Err(QccError(QccErrorKind::ParseError));
        }
        let tokens = match self.lexer.tokenize() {
            Err(e) => {
                proof {
                    lemma_line_bounds(self.lexer.buffer@, self.lexer.ptr.prev as int);
                }
                let d = Diagnostic {
                    error: QccErrorLoc(e, self.lexer.location.clone()),
                    line: text_of_line(&self.lexer, (self.lexer.ptr.start, self.lexer.ptr.end)),
                };
                let mut reports: Vec<Diagnostic> = Vec::new();
                reports.push(d);
                assert(diagnostic_views(reports@) =~= seq![d@]);
                self.reports = reports;
                return Err(e);
            },
            Ok(tokens) => tokens,
        };
        proof {
            lemma_lexemes_plain(old(self).lexer.buffer@, old(self).lexer.location.path@);
        }
        let (program, reports) = assemble(&self.lexer, &tokens, self.known.clone().modules, src);
        let failed = reports.len() > 0;
        self.reports = reports;
        if failed {
            Err(QccError(QccErrorKind::ParseError))
        } else {
            Ok(Qast { modules: program })
        }
    }
}

/// Whether a function of this name is defined in some module of the
/// program.
pub open spec fn defined(p: Seq<ModuleView>, name: Seq<char>) -> bool {
    exists|i: int, j: int|
        0 <= i < p.len() && 0 <= j < p[i].functions.len() && #[trigger] p[i].functions[j].name
            == name
}

/// The names of the functions that are defined in a program.
pub open spec fn defined_in(p: Seq<ModuleView>) -> spec_fn(Seq<char>) -> bool {
    |name: Seq<char>| defined(p, name)
}

/// No function of the program has a mangled name.
pub open spec fn plain_names(p: Seq<ModuleView>) -> bool {
    forall|i: int, j: int|
        0 <= i < p.len() && 0 <= j < p[i].functions.len() ==> !is_mangled(
            #[trigger] p[i].functions[j].name,
        )
}

/// If every call of an expression names what `before` accepts, and a rule
/// makes of every such name one that `after` accepts, then every call of
/// the rewritten expression names what `after` accepts.
pub proof fn lemma_renamed_calls(
    e: ExprView,
    rule: RenameView,
    before: spec_fn(Seq<char>) -> bool,
    after: spec_fn(Seq<char>) -> bool,
)
    requires
        first_failing(e, before) is None,
        forall|n: Seq<char>| #[trigger] before(n) ==> after(rule.apply(n)),
    ensures
        first_failing(renamed(e, rule), after) is None,
    decreases e, 0nat,
{
    match e {
        ExprView::Var(_) => {},
        ExprView::Literal(_) => {},
        ExprView::BinaryExpr(lhs, _, rhs) => {
            lemma_renamed_calls(*lhs, rule, before, after);
            lemma_renamed_calls(*rhs, rule, before, after);
        },
        ExprView::Tensor(items) => {
            lemma_renamed_calls_in(items, items.len(), rule, before, after);
            assert(renamed(e, rule)->Tensor_0 =~= renamed_all(items, rule));
        },
        ExprView::FnCall(f, args) => {
            assert(before(f.name));
            lemma_renamed_calls_in(args, args.len(), rule, before, after);
            assert(renamed(e, rule)->FnCall_1 =~= renamed_all(args, rule));
        },
        ExprView::Let(_, val) => {
            lemma_renamed_calls(*val, rule, before, after);
        },
        ExprView::Assign(_, val) => {
            lemma_renamed_calls(*val, rule, before, after);
        },
        ExprView::Conditional(cond, yes, no) => {
            lemma_renamed_calls(*cond, rule, before, after);
            lemma_renamed_calls_in(yes, yes.len(), rule, before, after);
            lemma_renamed_calls_in(no, no.len(), rule, before, after);
            assert(renamed(e, rule)->Conditional_1 =~= renamed_all(yes, rule));
            assert(renamed(e, rule)->Conditional_2 =~= renamed_all(no, rule));
        },
    }
}

/// The same for the first `k` expressions of a list.
pub proof fn lemma_renamed_calls_in(
    items: Seq<ExprView>,
    k: nat,
    rule: RenameView,
    before: spec_fn(Seq<char>) -> bool,
    after: spec_fn(Seq<char>) -> bool,
)
    requires
        k <= items.len(),
        first_failing_in(items, k, before) is None,
        forall|n: Seq<char>| #[trigger] before(n) ==> after(rule.apply(n)),
    ensures
        first_failing_in(renamed_all(items, rule), k, after) is None,
    decreases items, k,
{
    if k > 0 {
        lemma_renamed_calls_in(items, (k - 1) as nat, rule, before, after);
        lemma_renamed_calls(items[k - 1], rule, before, after);
    }
}

/// After mangling, the calls of a program name functions that the program
/// defines: if every call names a known function, and no function has a
/// mangled name yet, then in the mangled program every call has the name of
/// one of its functions.
pub proof fn lemma_mangled_calls_defined(p: Seq<ModuleView>, i: int, j: int)
    requires
        calls_known(p),
        plain_names(p),
        0 <= i < p.len(),
        0 <= j < p[i].functions.len(),
    ensures
        first_failing_in(
            mangled_program(p)[i].functions[j].body,
            mangled_program(p)[i].functions[j].body.len(),
            defined_in(mangled_program(p)),
        ) is None,
{
    reveal(calls_known);
    let q = mangled_program(p);
    let m = p[i];
    let rule = peers_of(m);
    let before = known_in(m, p);
    let after = defined_in(q);
    let body = m.functions[j].body;
    assert(first_unknown_in(body, body.len(), m, p) is None);
    assert forall|n: Seq<char>| #[trigger] before(n) implies after(rule.apply(n)) by {
        assert(target_known(n, m, p));
        if m.defines(n) {
            let b = choose|b: int| 0 <= b < m.functions.len() && #[trigger] m.functions[b].name == n;
            assert(!is_mangled(m.functions[b].name));
            assert(function_names(m)[b] == n);
            assert(rule.apply(n) == mangled(m.name, n));
            assert(q[i].functions[b].name == mangled(m.name, n));
        } else {
            let (a, b) = choose|a: int, b: int|
                0 <= a < p.len() && 0 <= b < p[a].functions.len() && n == #[trigger] mangled(
                    p[a].name,
                    p[a].functions[b].name,
                );
            lemma_mangled_is_mangled(p[a].name, p[a].functions[b].name);
            assert(rule.apply(n) == n);
            assert(!is_mangled(p[a].functions[b].name));
            assert(q[a].functions[b].name == n);
        }
    }
    lemma_renamed_calls_in(body, body.len(), rule, before, after);
    assert(q[i].functions[j].body == renamed_all(body, rule));
}

/// A program of plain names with one more module of plain names is one of
/// plain names.
proof fn lemma_plain_push(p: Seq<ModuleView>, m: ModuleView)
    requires
        plain_names(p),
        plain_functions(m.functions),
    ensures
        plain_names(p.push(m)),
{
    let q = p.push(m);
    assert forall|i: int, j: int| 0 <= i < q.len() && 0 <= j < q[i].functions.len() implies !is_mangled(
        #[trigger] q[i].functions[j].name,
    ) by {
        if i < p.len() {
            assert(q[i] == p[i]);
            assert(!is_mangled(p[i].functions[j].name));
        } else {
            assert(!m.functions[j].name.contains('$'));
        }
    }
}

/// Reading the tokens of a source keeps the names plain: the functions it
/// adds have identifiers as names.
proof fn lemma_top_plain(tokens: Seq<LexemeView>, pos: int, unit: Unit, buf: Seq<u8>, end: End)
    requires
        plain_tokens(tokens),
        plain_names(unit.program),
        plain_functions(unit.this.functions),
    ensures
        plain_names(top_at(tokens, pos, unit, buf, end).program),
        plain_functions(top_at(tokens, pos, unit, buf, end).this.functions),
    decreases tokens.len() - pos,
{
    if 0 <= pos < tokens.len() {
        match tokens[pos].token {
            Token::Module => {
                let m = module_at(tokens, pos);
                if !(m.next <= pos || m.next > tokens.len()) {
                    match m.value {
                        Ok(x) => {
                            lemma_module_plain(tokens, pos);
                            lemma_plain_push(unit.program, x);
                            lemma_top_plain(
                                tokens,
                                m.next,
                                Unit { program: unit.program.push(x), ..unit },
                                buf,
                                end,
                            );
                        },
                        Err(kind) => {
                            lemma_top_plain(
                                tokens,
                                m.next,
                                Unit {
                                    reports: unit.reports.push(
                                        diagnostic_at(kind, tokens, m.next, buf, end),
                                    ),
                                    ..unit
                                },
                                buf,
                                end,
                            );
                        },
                    }
                }
            },
            Token::Hash | Token::Function => {
                let f = function_at(tokens, pos);
                if !(f.next <= pos || f.next > tokens.len()) {
                    match f.value {
                        Ok(x) => {
                            if unit.this.defines(x.name) {
                                lemma_top_plain(
                                    tokens,
                                    f.next,
                                    Unit {
                                        reports: unit.reports.push(
                                            diagnostic_at(
                                                QccErrorKind::RedefinedFunction,
                                                tokens,
                                                pos,
                                                buf,
                                                end,
                                            ),
                                        ),
                                        ..unit
                                    },
                                    buf,
                                    end,
                                );
                            } else {
                                lemma_function_name(tokens, pos);
                                let more = unit.this.functions.push(x);
                                assert forall|i: int| 0 <= i < more.len() implies !(
                                #[trigger] more[i]).name.contains('$') by {
                                    if i < unit.this.functions.len() {
                                        assert(more[i] == unit.this.functions[i]);
                                    }
                                }
                                lemma_top_plain(
                                    tokens,
                                    f.next,
                                    Unit {
                                        this: ModuleView { functions: more, ..unit.this },
                                        ..unit
                                    },
                                    buf,
                                    end,
                                );
                            }
                        },
                        Err(kind) => {
                            lemma_top_plain(
                                tokens,
                                f.next,
                                Unit {
                                    reports: unit.reports.push(
                                        diagnostic_at(kind, tokens, f.next, buf, end),
                                    ),
                                    ..unit
                                },
                                buf,
                                end,
                            );
                        },
                    }
                }
            },
            Token::Import => {
                let i = import_at(tokens, pos);
                if !(i.next <= pos || i.next > tokens.len()) {
                    lemma_top_plain(tokens, i.next, with_import(unit, tokens, pos, buf), buf, end);
                }
            },
            _ => {
                lemma_top_plain(tokens, pos + 1, unit, buf, end);
            },
        }
    }
}

/// Rewriting the calls of imported functions changes no name of a
/// function.
proof fn lemma_linked_plain(m: ModuleView, imports: Seq<ImportView>, k: nat)
    requires
        plain_functions(m.functions),
    ensures
        plain_functions(linked(m, imports, k).functions),
    decreases k,
{
    if k > 0 && k <= imports.len() {
        lemma_linked_plain(m, imports, (k - 1) as nat);
        let before = linked(m, imports, (k - 1) as nat);
        let after = linked(m, imports, k);
        assert forall|i: int| 0 <= i < after.functions.len() implies !(
        #[trigger] after.functions[i]).name.contains('$') by {
            assert(after.functions[i].name == before.functions[i].name);
        }
    }
}

/// The program of a source has plain names if the modules known before
/// have: the names the source adds are identifiers, and no identifier holds
/// the character `$`.
pub proof fn lemma_parsed_plain(
    tokens: Seq<LexemeView>,
    buf: Seq<u8>,
    known: Seq<ModuleView>,
    src: Seq<char>,
    end: End,
)
    requires
        plain_tokens(tokens),
        plain_names(known),
    ensures
        plain_names(parsed(tokens, buf, known, src, end).program),
{
    let start = Unit {
        program: known,
        this: ModuleView {
            name: module_name(src),
            location: LocationView { path: src, row: 1, col: 1 },
            functions: Seq::empty(),
        },
        imports: Seq::empty(),
        reports: Seq::empty(),
    };
    lemma_top_plain(tokens, 0, start, buf, end);
    let unit = top_at(tokens, 0, start, buf, end);
    lemma_linked_plain(unit.this, unit.imports, unit.imports.len());
    lemma_plain_push(unit.program, linked(unit.this, unit.imports, unit.imports.len()));
}

} // verus!
