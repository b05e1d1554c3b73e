//! How a program is printed: as a tree, one line for each module, function
//! and expression.
use crate::ast::{
    lemma_expr_view, views, Expr, ExprView, FunctionAST, FunctionView, ModuleAST, ModuleView, Qast,
    VarView,
};
use crate::attributes::Attributes;
use crate::error::{QccError, QccErrorKind};
use crate::inference::{ReportView, SymbolTable, TypeReport};
use crate::ast::location_of;
use crate::text::{decimal, push_decimal};
use crate::types::Type;
use vstd::prelude::*;

verus! {

/// How an expression is printed.
///
/// An expression with an operator stands in parentheses, a tensor in
/// brackets. A call shows the type of its result once that is known. A
/// conditional takes several lines: its condition, and under `True` and
/// `False` the expressions of its branches; a branch without expressions is
/// left out.
pub open spec fn expr_label(e: ExprView) -> Seq<char>
    decreases e, 0nat,
{
    match e {
        ExprView::Var(v) => v.label(),
        ExprView::Literal(l) => l.label(),
        ExprView::BinaryExpr(lhs, op, rhs) => "("@ + expr_label(*lhs) + " "@ + op.label() + " "@
            + expr_label(*rhs) + ")"@,
        ExprView::Tensor(items) => "["@ + joined(items, items.len()) + "]"@,
        ExprView::FnCall(f, args) => f.name + (if f.output_type != Type::Bottom {
            ": "@ + f.output_type.label() + " ("@
        } else {
            "("@
        }) + joined(args, args.len()) + ")"@,
        ExprView::Let(var, val) => var.label() + " = "@ + expr_label(*val),
        ExprView::Assign(var, val) => var.label() + " = "@ + expr_label(*val),
        ExprView::Conditional(cond, yes, no) => expr_label(*cond) + "\n"@ + (if yes.len() > 0 {
            "      |_ True\n"@ + branch(yes, yes.len())
        } else {
            Seq::<char>::empty()
        }) + (if no.len() > 0 {
            "      |_ False\n"@ + branch(no, no.len())
        } else {
            Seq::<char>::empty()
        }),
    }
}

/// The first `k` of `items` as they are printed in a list: with a comma
/// and a space between them.
pub open spec fn joined(items: Seq<ExprView>, k: nat) -> Seq<char>
    decreases items, k,
{
    if k == 0 || k > items.len() {
        Seq::empty()
    } else if k == 1 {
        expr_label(items[0])
    } else {
        joined(items, (k - 1) as nat) + ", "@ + expr_label(items[k - 1])
    }
}

/// The first `k` expressions of a branch as they are printed: each on a
/// line of its own.
pub open spec fn branch(items: Seq<ExprView>, k: nat) -> Seq<char>
    decreases items, k,
{
    if k == 0 || k > items.len() {
        Seq::empty()
    } else {
        branch(items, (k - 1) as nat) + "        |_ "@ + expr_label(items[k - 1]) + "\n"@
    }
}

/// The first `k` parameters as they are printed in a list.
pub open spec fn joined_vars(vars: Seq<VarView>, k: nat) -> Seq<char>
    decreases k,
{
    if k == 0 || k > vars.len() {
        Seq::empty()
    } else if k == 1 {
        vars[0].label()
    } else {
        joined_vars(vars, (k - 1) as nat) + ", "@ + vars[k - 1].label()
    }
}

/// The first `k` expressions of a body as they are printed: each on a line
/// of its own.
pub open spec fn body_lines(body: Seq<ExprView>, k: nat) -> Seq<char>
    decreases k,
{
    if k == 0 || k > body.len() {
        Seq::empty()
    } else {
        body_lines(body, (k - 1) as nat) + "    |_ "@ + expr_label(body[k - 1]) + "\n"@
    }
}

/// How a function is printed: a line with its attributes, name, parameters,
/// result type and place, then its body, then an empty line.
pub open spec fn function_label(f: FunctionView) -> Seq<char> {
    function_head(f) + "\n"@ + body_lines(f.body, f.body.len()) + "\n"@
}

/// The first `k` functions of a module as they are printed.
pub open spec fn function_labels(functions: Seq<FunctionView>, k: nat) -> Seq<char>
    decreases k,
{
    if k == 0 || k > functions.len() {
        Seq::empty()
    } else {
        function_labels(functions, (k - 1) as nat) + function_label(functions[k - 1])
    }
}

/// How a module is printed: a line with its name and place, then its
/// functions.
pub open spec fn module_label(m: ModuleView) -> Seq<char> {
    "|_ "@ + m.name + "\t\t\t// "@ + m.location.label() + "\n"@ + function_labels(
        m.functions,
        m.functions.len(),
    )
}

/// The first `k` modules of a program as they are printed.
pub open spec fn program_label(p: Seq<ModuleView>, k: nat) -> Seq<char>
    decreases k,
{
    if k == 0 || k > p.len() {
        Seq::empty()
    } else {
        program_label(p, (k - 1) as nat) + module_label(p[k - 1])
    }
}

/// Appends the items of a list as they are printed.
fn push_joined(items: &Vec<Expr>, s: &mut String)
    ensures
        final(s)@ == old(s)@ + joined(views(items@), items@.len()),
    decreases items, 1nat,
{
    let ghost all = views(items@);
    let mut i: usize = 0;
    assert(old(s)@ + joined(all, 0) =~= old(s)@);
    while i < items.len()
        invariant
            i <= items@.len(),
            all == views(items@),
            s@ == old(s)@ + joined(all, i as nat),
        decreases items@.len() - i,
    {
        if i > 0 {
            s.append(", ");
        }
        items[i].push_to(s);
        i = i + 1;
        proof {
            if i == 1 {
                assert(s@ =~= old(s)@ + joined(all, i as nat));
            } else {
                assert(s@ =~= old(s)@ + (joined(all, (i - 1) as nat) + ", "@ + expr_label(all[i - 1])));
            }
        }
    }
}

/// Appends the expressions of a branch as they are printed.
fn push_branch(items: &Vec<Expr>, s: &mut String)
    ensures
        final(s)@ == old(s)@ + branch(views(items@), items@.len()),
    decreases items, 1nat,
{
    let ghost all = views(items@);
    let mut i: usize = 0;
    assert(old(s)@ + branch(all, 0) =~= old(s)@);
    while i < items.len()
        invariant
            i <= items@.len(),
            all == views(items@),
            s@ == old(s)@ + branch(all, i as nat),
        decreases items@.len() - i,
    {
        s.append("        |_ ");
        items[i].push_to(s);
        s.append("\n");
        i = i + 1;
        proof {
            assert(s@ =~= old(s)@ + (branch(all, (i - 1) as nat) + "        |_ "@ + expr_label(
                all[i - 1],
            ) + "\n"@));
        }
    }
}

impl Expr {
    /// Appends the expression as it is printed.
    pub fn push_to(&self, s: &mut String)
        ensures
            final(s)@ == old(s)@ + expr_label(self@),
        decreases self, 0nat,
    {
        proof {
            lemma_expr_view(*self);
        }
        match self {
            Expr::Var(v) => v.push_to(s),
            Expr::Literal(l) => l.push_to(s),
            Expr::BinaryExpr(lhs, op, rhs) => {
                s.append("(");
                lhs.push_to(s);
                s.append(" ");
                s.append(op.symbol());
                s.append(" ");
                rhs.push_to(s);
                s.append(")");
                assert(final(s)@ =~= old(s)@ + expr_label(self@));
            },
            Expr::Tensor(items) => {
                s.append("[");
                push_joined(items, s);
                s.append("]");
                assert(final(s)@ =~= old(s)@ + expr_label(self@));
            },
            Expr::FnCall(f, args) => {
                s.append(f.name.as_str());
                if f.output_type != Type::Bottom {
                    s.append(": ");
                    s.append(f.output_type.to_string().as_str());
                    s.append(" (");
                } else {
                    s.append("(");
                }
                push_joined(args, s);
                s.append(")");
                assert(final(s)@ =~= old(s)@ + expr_label(self@));
            },
            Expr::Let(var, val) => {
                var.push_to(s);
                s.append(" = ");
                val.push_to(s);
                assert(final(s)@ =~= old(s)@ + expr_label(self@));
            },
            Expr::Assign(var, val) => {
                var.push_to(s);
                s.append(" = ");
                val.push_to(s);
                assert(final(s)@ =~= old(s)@ + expr_label(self@));
            },
            Expr::Conditional(cond, yes, no) => {
                cond.push_to(s);
                s.append("\n");
                if yes.len() > 0 {
                    s.append("      |_ True\n");
                    push_branch(yes, s);
                }
                if no.len() > 0 {
                    s.append("      |_ False\n");
                    push_branch(no, s);
                }
                assert(final(s)@ =~= old(s)@ + expr_label(self@));
            },
        }
    }

    pub fn to_string(&self) -> (s: String)
        ensures
            s@ == expr_label(self@),
    {
        let mut s = String::new();
        self.push_to(&mut s);
        assert(s@ =~= expr_label(self@));
        s
    }
}

/// The first line of a function as it is printed, without the line feed.
pub open spec fn function_head(f: FunctionView) -> Seq<char> {
    "  |_ fn "@ + (if f.attrs.len() > 0 {
        "[["@ + Attributes::label(f.attrs) + "]] "@
    } else {
        Seq::<char>::empty()
    }) + f.name + " ("@ + joined_vars(f.params, f.params.len()) + ") : "@ + f.output_type.label()
        + "\t\t// "@ + f.location.label()
}

impl FunctionAST {
    /// Appends the parameters as they are printed.
    fn push_params(&self, s: &mut String)
        ensures
            final(s)@ == old(s)@ + joined_vars(self@.params, self@.params.len()),
    {
        let ghost f = self@;
        let ghost head = s@;
        let mut i: usize = 0;
        assert(head + joined_vars(f.params, 0) =~= head);
        while i < self.params.len()
            invariant
                i <= self.params@.len(),
                f == self@,
                s@ == head + joined_vars(f.params, i as nat),
            decreases self.params@.len() - i,
        {
            if i > 0 {
                s.append(", ");
            }
            self.params[i].push_to(s);
            i = i + 1;
            proof {
                if i == 1 {
                    assert(s@ =~= head + joined_vars(f.params, i as nat));
                } else {
                    assert(s@ =~= head + (joined_vars(f.params, (i - 1) as nat) + ", "@
                        + f.params[i - 1].label()));
                }
            }
        }
    }

    /// Appends the first line of the function, without the line feed.
    fn push_head(&self, s: &mut String)
        ensures
            final(s)@ == old(s)@ + function_head(self@),
    {
        s.append("  |_ fn ");
        if !self.attrs.is_empty() {
            s.append("[[");
            s.append(self.attrs.to_string().as_str());
            s.append("]] ");
        }
        s.append(self.name.as_str());
        s.append(" (");
        self.push_params(s);
        s.append(") : ");
        s.append(self.output_type.to_string().as_str());
        s.append("\t\t// ");
        s.append(self.location.to_string().as_str());
        assert(final(s)@ =~= old(s)@ + function_head(self@));
    }

    /// Appends the body as it is printed.
    fn push_body(&self, s: &mut String)
        ensures
            final(s)@ == old(s)@ + body_lines(self@.body, self@.body.len()),
    {
        let ghost f = self@;
        let ghost top = s@;
        let mut k: usize = 0;
        assert(top + body_lines(f.body, 0) =~= top);
        while k < self.body.len()
            invariant
                k <= self.body@.len(),
                f == self@,
                s@ == top + body_lines(f.body, k as nat),
            decreases self.body@.len() - k,
        {
            s.append("    |_ ");
            self.body[k].push_to(s);
            s.append("\n");
            k = k + 1;
            proof {
                assert(s@ =~= top + (body_lines(f.body, (k - 1) as nat) + "    |_ "@ + expr_label(
                    f.body[k - 1],
                ) + "\n"@));
            }
        }
    }

    /// Appends the function as it is printed.
    pub fn push_to(&self, s: &mut String)
        ensures
            final(s)@ == old(s)@ + function_label(self@),
    {
        self.push_head(s);
        s.append("\n");
        self.push_body(s);
        s.append("\n");
        assert(final(s)@ =~= old(s)@ + (function_head(self@) + "\n"@ + body_lines(
            self@.body,
            self@.body.len(),
        ) + "\n"@));
        assert(function_label(self@) =~= function_head(self@) + "\n"@ + body_lines(
            self@.body,
            self@.body.len(),
        ) + "\n"@);
    }

    pub fn to_string(&self) -> (s: String)
        ensures
            s@ == function_label(self@),
    {
        let mut s = String::new();
        self.push_to(&mut s);
        assert(s@ =~= function_label(self@));
        s
    }
}

impl ModuleAST {
    /// Appends the module as it is printed.
    pub fn push_to(&self, s: &mut String)
        ensures
            final(s)@ == old(s)@ + module_label(self@),
    {
        let ghost m = self@;
        s.append("|_ ");
        s.append(self.name.as_str());
        s.append("\t\t\t// ");
        s.append(self.location.to_string().as_str());
        s.append("\n");
        let ghost top = s@;
        let mut k: usize = 0;
        assert(top + function_labels(m.functions, 0) =~= top);
        while k < self.functions.len()
            invariant
                k <= self.functions@.len(),
                m == self@,
                s@ == top + function_labels(m.functions, k as nat),
            decreases self.functions@.len() - k,
        {
            self.functions[k].push_to(s);
            k = k + 1;
            proof {
                assert(s@ =~= top + (function_labels(m.functions, (k - 1) as nat) + function_label(
                    m.functions[k - 1],
                )));
            }
        }
        assert(final(s)@ =~= old(s)@ + module_label(m));
    }

    pub fn to_string(&self) -> (s: String)
        ensures
            s@ == module_label(self@),
    {
        let mut s = String::new();
        self.push_to(&mut s);
        assert(s@ =~= module_label(self@));
        s
    }
}

impl Qast {
    /// The program as it is printed: its modules one after the other.
    pub fn to_string(&self) -> (s: String)
        ensures
            s@ == program_label(self@, self@.len()),
    {
        let ghost p = self@;
        let mut s = String::new();
        let mut k: usize = 0;
        while k < self.modules.len()
            invariant
                k <= self.modules@.len(),
                p == self@,
                s@ == program_label(p, k as nat),
            decreases self.modules@.len() - k,
        {
            self.modules[k].push_to(&mut s);
            k = k + 1;
        }
        s
    }
}

/// How a report of inference is printed: the error line, and behind it
/// the expression that is meant with its place; for a result that does not
/// fit, the last expression and the function, each with its type.
pub open spec fn report_label(r: ReportView) -> Seq<char> {
    match r {
        ReportView::Unknown(e) => QccError(QccErrorKind::UnknownType).line() + " for `"@
            + expr_label(e) + "` "@ + location_of(e).label(),
        ReportView::Mismatch(kind, e) => QccError(kind).line() + " on\n\t"@ + decimal(
            location_of(e).row,
        ) + "\t"@ + expr_label(e),
        ReportView::Return { last, found, function, declared } => QccError(
            QccErrorKind::TypeMismatch,
        ).line() + " between\n\t`"@ + expr_label(last) + "` ("@ + found.label() + ") and `"@
            + function + "` ("@ + declared.label() + ") "@ + location_of(last).label(),
    }
}

impl TypeReport {
    pub fn to_string(&self) -> (s: String)
        ensures
            s@ == report_label(self@),
    {
        match self {
            TypeReport::Unknown(e) => {
                let mut s = QccError(QccErrorKind::UnknownType).to_string();
                s.append(" for `");
                e.push_to(&mut s);
                s.append("` ");
                s.append(e.get_location().to_string().as_str());
                assert(s@ =~= report_label(self@));
                s
            },
            TypeReport::Mismatch(kind, e) => {
                let mut s = QccError(*kind).to_string();
                s.append(" on\n\t");
                push_decimal(&mut s, e.get_location().row());
                s.append("\t");
                e.push_to(&mut s);
                assert(s@ =~= report_label(self@));
                s
            },
            TypeReport::Return { last, found, function, declared } => {
                let mut s = QccError(QccErrorKind::TypeMismatch).to_string();
                s.append(" between\n\t`");
                last.push_to(&mut s);
                s.append("` (");
                s.append(found.to_string().as_str());
                s.append(") and `");
                s.append(function.as_str());
                s.append("` (");
                s.append(declared.to_string().as_str());
                s.append(") ");
                s.append(last.get_location().to_string().as_str());
                assert(s@ =~= report_label(self@));
                s
            },
        }
    }
}

/// The first `k` symbols of a table as they are printed: each with a
/// space behind it.
pub open spec fn symbols_label(table: Seq<VarView>, k: nat) -> Seq<char>
    decreases k,
{
    if k == 0 || k > table.len() {
        Seq::empty()
    } else {
        symbols_label(table, (k - 1) as nat) + table[k - 1].label() + " "@
    }
}

impl SymbolTable {
    /// The table as it is printed: its symbols on one line.
    pub fn to_string(&self) -> (s: String)
        ensures
            s@ == symbols_label(self@, self@.len()) + "\n"@,
    {
        let ghost t = self@;
        let mut s = String::new();
        let mut k: usize = 0;
        while k < self.table.len()
            invariant
                k <= self.table@.len(),
                t == self@,
                t.len() == self.table@.len(),
                s@ == symbols_label(t, k as nat),
            decreases self.table@.len() - k,
        {
            self.table[k].push_to(&mut s);
            s.append(" ");
            k = k + 1;
            assert(t[k - 1] == self.table@[k - 1]@);
        }
        s.append("\n");
        s
    }
}

} // verus!
