//! Type inference. Each function is taken by itself: its expressions are
//! first typed from what they hold, then from the tables of parameters,
//! local variables and functions.
use crate::ast::{
    clone_all, clone_vars, combine, combined, lemma_expr_view, type_of, var_views, views, Expr,
    ExprView, FunctionAST, FunctionRef, FunctionRefView, FunctionView, Ident, ModuleAST,
    ModuleView, Qast, VarAST, VarView,
};
use crate::error::{QccError, QccErrorKind};
use crate::mangler::{mangle, mangle_name, mangled, mangled_program};
use crate::types::Type;
use vstd::prelude::*;

verus! {

/// A table of symbols: a set of variables, kept in the order in which they
/// came.
#[derive(Debug)]
pub struct SymbolTable {
    pub table: Vec<VarAST>,
}

impl View for SymbolTable {
    type V = Seq<VarView>;

    open spec fn view(&self) -> Seq<VarView> {
        var_views(self.table@)
    }
}

/// A table with one more symbol; a symbol that is in the table already is
/// not added again.
pub open spec fn inserted(table: Seq<VarView>, v: VarView) -> Seq<VarView> {
    if table.contains(v) {
        table
    } else {
        table.push(v)
    }
}

/// A table with the first `k` of `values` added one by one.
pub open spec fn extended(table: Seq<VarView>, values: Seq<VarView>, k: nat) -> Seq<VarView>
    decreases k,
{
    if k == 0 || k > values.len() {
        table
    } else {
        inserted(extended(table, values, (k - 1) as nat), values[k - 1])
    }
}

/// The type under which `name` is known in a table of variables: that of
/// the entry of this name that came last, among those with a known type;
/// `Bottom` if there is none.
pub open spec fn variable_type(table: Seq<VarView>, name: Seq<char>) -> Type
    decreases table.len(),
{
    if table.len() == 0 {
        Type::Bottom
    } else if table.last().name == name && table.last().is_typed() {
        table.last().type_
    } else {
        variable_type(table.drop_last(), name)
    }
}

/// The type under which `name` is known in a table of functions: that of
/// the entry of this name that came first, among those with a known type;
/// `Bottom` if there is none.
pub open spec fn function_type(table: Seq<VarView>, name: Seq<char>) -> Type
    decreases table.len(),
{
    if table.len() == 0 {
        Type::Bottom
    } else if table.first().name == name && table.first().is_typed() {
        table.first().type_
    } else {
        function_type(table.drop_first(), name)
    }
}

/// No symbol is in the table twice.
pub open spec fn distinct(table: Seq<VarView>) -> bool {
    forall|i: int, j: int| 0 <= i < j < table.len() ==> table[i] != table[j]
}

impl SymbolTable {
    pub fn new() -> (t: Self)
        ensures
            t@ == Seq::<VarView>::empty(),
    {
        let t = SymbolTable { table: Vec::new() };
        assert(t@ =~= Seq::<VarView>::empty());
        t
    }

    /// Whether the symbol is in the table.
    pub fn contains(&self, value: &VarAST) -> (r: bool)
        ensures
            r == self@.contains(value@),
    {
        let mut i: usize = 0;
        while i < self.table.len()
            invariant
                i <= self.table@.len(),
                forall|j: int| 0 <= j < i ==> self@[j] != value@,
            decreases self.table@.len() - i,
        {
            if self.table[i] == *value {
                assert(self@[i as int] == value@);
                return true;
            }
            i = i + 1;
        }
        false
    }

    /// Adds a symbol, unless it is in the table already.
    pub fn push(&mut self, value: VarAST)
        ensures
            final(self)@ == inserted(old(self)@, value@),
            distinct(old(self)@) ==> distinct(final(self)@),
    {
        if !self.contains(&value) {
            self.table.push(value);
            assert(final(self)@ =~= old(self)@.push(value@));
        }
    }

    /// Adds symbols one by one.
    pub fn extend(&mut self, values: Vec<VarAST>)
        ensures
            final(self)@ == extended(old(self)@, var_views(values@), values@.len()),
            distinct(old(self)@) ==> distinct(final(self)@),
    {
        let mut i: usize = 0;
        while i < values.len()
            invariant
                i <= values@.len(),
                self@ == extended(old(self)@, var_views(values@), i as nat),
                distinct(old(self)@) ==> distinct(self@),
            decreases values@.len() - i,
        {
            self.push(values[i].clone());
            i = i + 1;
        }
    }

    /// The symbols in the order in which they came.
    pub fn iter(&self) -> (v: &Vec<VarAST>)
        ensures
            var_views(v@) == self@,
    {
        &self.table
    }

    /// The type under which a variable of this name is known.
    pub fn variable_type(&self, name: &Ident) -> (t: Type)
        ensures
            t == variable_type(self@, name@),
    {
        let mut i: usize = self.table.len();
        assert(self@.subrange(0, i as int) =~= self@);
        while i > 0
            invariant
                i <= self.table@.len(),
                variable_type(self@, name@) == variable_type(self@.subrange(0, i as int), name@),
            decreases i,
        {
            let v = &self.table[i - 1];
            let ghost part = self@.subrange(0, i as int);
            assert(part.last() == v@);
            assert(part.drop_last() =~= self@.subrange(0, i - 1));
            if v.name == *name && v.type_ != Type::Bottom {
                return v.type_;
            }
            i = i - 1;
        }
        proof {
            assert(self@.subrange(0, self@.len() as int) =~= self@);
        }
        Type::Bottom
    }

    /// The type under which a function of this name is known.
    pub fn function_type(&self, name: &Ident) -> (t: Type)
        ensures
            t == function_type(self@, name@),
    {
        let n = self.table.len();
        let mut i: usize = 0;
        assert(self@.subrange(0, n as int) =~= self@);
        while i < n
            invariant
                i <= n == self.table@.len(),
                function_type(self@, name@) == function_type(self@.subrange(i as int, n as int), name@),
            decreases n - i,
        {
            let v = &self.table[i];
            let ghost part = self@.subrange(i as int, n as int);
            assert(part.first() == v@);
            assert(part.drop_first() =~= self@.subrange(i + 1, n as int));
            if v.name == *name && v.type_ != Type::Bottom {
                return v.type_;
            }
            i = i + 1;
        }
        proof {
            assert(self@.subrange(0, self@.len() as int) =~= self@);
        }
        Type::Bottom
    }
}

/// The type that expression `e` is found to have from what it holds, and
/// `e` as it is left: a `let` whose variable had no type has the type of
/// its value, and a call whose result is not known has taken down the types
/// of its arguments. `None` says that no type could be found.
pub open spec fn inferred(e: ExprView) -> (ExprView, Option<Type>)
    decreases e, 0nat,
{
    match e {
        ExprView::Var(v) => if v.type_ == Type::Bottom {
            (e, None)
        } else {
            (e, Some(v.type_))
        },
        ExprView::Literal(l) => (e, Some(l.type_of())),
        ExprView::BinaryExpr(lhs, op, rhs) => {
            let l = inferred(*lhs);
            if l.1 is None {
                (ExprView::BinaryExpr(Box::new(l.0), op, rhs), None)
            } else {
                let r = inferred(*rhs);
                let whole = ExprView::BinaryExpr(Box::new(l.0), op, Box::new(r.0));
                if r.1 is None {
                    (whole, None)
                } else if l.1->0 == r.1->0 {
                    (whole, l.1)
                } else if combined(l.1->0, r.1->0) == Type::Qbit {
                    (whole, Some(Type::Qbit))
                } else {
                    (whole, None)
                }
            }
        },
        ExprView::Tensor(items) => {
            let all = inferred_each(items, items.len());
            (
                ExprView::Tensor(all.0),
                match all.1 {
                    None => None,
                    Some(types) => if types.len() == 0 {
                        Some(Type::Bottom)
                    } else if uniform(types) {
                        Some(types[0])
                    } else {
                        None
                    },
                },
            )
        },
        ExprView::FnCall(f, args) => if f.output_type == Type::Bottom && args.len() > 0 {
            let all = inferred_each(args, args.len());
            match all.1 {
                None => (ExprView::FnCall(f, all.0), None),
                Some(types) => (
                    ExprView::FnCall(
                        FunctionRefView { input_types: f.input_types + types, ..f },
                        all.0,
                    ),
                    Some(f.output_type),
                ),
            }
        } else {
            (e, Some(f.output_type))
        },
        ExprView::Let(var, val) => {
            let v = inferred(*val);
            let bound = inferred_binding(var, v.1);
            (ExprView::Let(bound.0, Box::new(v.0)), bound.1)
        },
        ExprView::Assign(var, val) => {
            let v = inferred(*val);
            let bound = inferred_binding(var, v.1);
            (ExprView::Assign(bound.0, Box::new(v.0)), bound.1)
        },
        ExprView::Conditional(cond, yes, no) => {
            let a = inferred_block(yes, yes.len());
            let b = inferred_block(no, no.len());
            (
                ExprView::Conditional(cond, a.0, b.0),
                if a.1 == b.1 {
                    a.1
                } else {
                    Some(Type::Bottom)
                },
            )
        },
    }
}

/// Whether all types of a list are the same.
pub open spec fn uniform(types: Seq<Type>) -> bool {
    forall|i: int| 0 <= i < types.len() ==> #[trigger] types[i] == types[0]
}

/// What a `let` or an assignment makes of its variable, given the type
/// found for its value: a variable without a type takes that of the value;
/// one with a type has to agree with it.
pub open spec fn inferred_binding(var: VarView, value: Option<Type>) -> (VarView, Option<Type>) {
    match value {
        None => (var, None),
        Some(t) => if var.type_ == Type::Bottom {
            (VarView { type_: t, ..var }, Some(t))
        } else if var.type_ == t {
            (var, Some(t))
        } else {
            (var, None)
        },
    }
}

/// The first `k` of `items` inferred in order, up to the first for which
/// no type is found: the items as they are left, and the types found if
/// one was found for each.
pub open spec fn inferred_each(items: Seq<ExprView>, k: nat) -> (Seq<ExprView>, Option<Seq<Type>>)
    decreases items, k,
{
    if k == 0 || k > items.len() {
        (items, Some(Seq::empty()))
    } else {
        let before = inferred_each(items, (k - 1) as nat);
        match before.1 {
            None => before,
            Some(types) => {
                let x = inferred(items[k - 1]);
                (
                    before.0.update(k - 1, x.0),
                    match x.1 {
                        None => None,
                        Some(t) => Some(types.push(t)),
                    },
                )
            },
        }
    }
}

/// The first `k` expressions of a block inferred in order: the block as it
/// is left, and what was found for the last of them (`Bottom` for none).
pub open spec fn inferred_block(items: Seq<ExprView>, k: nat) -> (Seq<ExprView>, Option<Type>)
    decreases items, k,
{
    if k == 0 || k > items.len() {
        (items, Some(Type::Bottom))
    } else {
        let before = inferred_block(items, (k - 1) as nat);
        let x = inferred(items[k - 1]);
        (before.0.update(k - 1, x.0), x.1)
    }
}

/// What is left to say after an expression was typed from the tables:
/// `None` if all went well, a part that has no type, or a kind of error.
pub type Residual = Option<Result<ExprView, QccErrorKind>>;

/// Expression `e` typed from the tables, and what is left to say. The
/// variables of `e` get the type they have as parameters or else as local
/// variables; the calls get the result type of the function they name; a
/// `let` whose variable has no type gets the type of its value. The first
/// variable or call that is in no table ends the work and is handed back;
/// so does a `let` whose two sides have types that do not go together.
pub open spec fn tabled(
    e: ExprView,
    params: Seq<VarView>,
    locals: Seq<VarView>,
    functions: Seq<VarView>,
) -> (ExprView, Residual)
    decreases e, 0nat,
{
    match e {
        ExprView::Var(v) => {
            let p = variable_type(params, v.name);
            let l = variable_type(locals, v.name);
            if p == Type::Bottom && l == Type::Bottom {
                (
                    e,
                    Some(
                        Ok(
                            ExprView::Var(
                                VarView {
                                    name: v.name,
                                    location: v.location,
                                    type_: v.type_,
                                    unary_negative: false,
                                },
                            ),
                        ),
                    ),
                )
            } else if p != Type::Bottom {
                (ExprView::Var(VarView { type_: p, ..v }), None)
            } else {
                (ExprView::Var(VarView { type_: l, ..v }), None)
            }
        },
        ExprView::Literal(_) => (e, None),
        ExprView::BinaryExpr(lhs, op, rhs) => {
            let l = tabled(*lhs, params, locals, functions);
            if l.1 is Some {
                (ExprView::BinaryExpr(Box::new(l.0), op, rhs), l.1)
            } else {
                let r = tabled(*rhs, params, locals, functions);
                (ExprView::BinaryExpr(Box::new(l.0), op, Box::new(r.0)), r.1)
            }
        },
        ExprView::Tensor(items) => {
            let all = tabled_each(items, items.len(), params, locals, functions);
            (ExprView::Tensor(all.0), all.1)
        },
        ExprView::FnCall(f, args) => {
            let all = tabled_each(args, args.len(), params, locals, functions);
            if all.1 is Some {
                (ExprView::FnCall(f, all.0), all.1)
            } else {
                let t = function_type(functions, f.name);
                if t != Type::Bottom {
                    (ExprView::FnCall(FunctionRefView { output_type: t, ..f }, all.0), None)
                } else {
                    (
                        ExprView::FnCall(f, all.0),
                        Some(
                            Ok(
                                ExprView::FnCall(
                                    FunctionRefView {
                                        name: f.name,
                                        location: f.location,
                                        input_types: Seq::empty(),
                                        output_type: f.output_type,
                                    },
                                    Seq::empty(),
                                ),
                            ),
                        ),
                    )
                }
            }
        },
        ExprView::Let(var, val) => {
            let v = tabled(*val, params, locals, functions);
            let bound = tabled_binding(var, v.0, v.1);
            (ExprView::Let(bound.0, Box::new(v.0)), bound.1)
        },
        ExprView::Assign(var, val) => {
            let v = tabled(*val, params, locals, functions);
            let bound = tabled_binding(var, v.0, v.1);
            (ExprView::Assign(bound.0, Box::new(v.0)), bound.1)
        },
        ExprView::Conditional(cond, yes, no) => {
            let a = tabled_each(yes, yes.len(), params, locals, functions);
            if a.1 is Some {
                (ExprView::Conditional(cond, a.0, no), a.1)
            } else {
                let b = tabled_each(no, no.len(), params, locals, functions);
                (ExprView::Conditional(cond, a.0, b.0), b.1)
            }
        },
    }
}

/// Whether one of the two types is a bit and the other a quantum bit. A
/// value of the one may be bound to a variable of the other: a measurement
/// or a preparation stands between them.
pub open spec fn bit_and_qbit(a: Type, b: Type) -> bool {
    (a == Type::Qbit && b == Type::Bit) || (a == Type::Bit && b == Type::Qbit)
}

/// What a `let` or an assignment makes of its variable once its value was
/// typed from the tables.
pub open spec fn tabled_binding(var: VarView, value: ExprView, left: Residual) -> (VarView, Residual) {
    if left is Some {
        (var, left)
    } else if var.type_ == Type::Bottom {
        (VarView { type_: type_of(value), ..var }, None)
    } else if var.type_ == type_of(value) || bit_and_qbit(var.type_, type_of(value)) {
        (var, None)
    } else {
        (var, Some(Err(QccErrorKind::TypeMismatch)))
    }
}

/// The first `k` of `items` typed from the tables in order, up to the
/// first that leaves something to say.
pub open spec fn tabled_each(
    items: Seq<ExprView>,
    k: nat,
    params: Seq<VarView>,
    locals: Seq<VarView>,
    functions: Seq<VarView>,
) -> (Seq<ExprView>, Residual)
    decreases items, k,
{
    if k == 0 || k > items.len() {
        (items, None)
    } else {
        let before = tabled_each(items, (k - 1) as nat, params, locals, functions);
        if before.1 is Some {
            before
        } else {
            let x = tabled(items[k - 1], params, locals, functions);
            (before.0.update(k - 1, x.0), x.1)
        }
    }
}

/// The model of what is left to say.
pub open spec fn residual_view(r: Option<Result<Expr, QccErrorKind>>) -> Residual {
    match r {
        None => None,
        Some(Ok(e)) => Some(Ok(e@)),
        Some(Err(kind)) => Some(Err(kind)),
    }
}

/// Adds copies of `items[from..]` to `out`.
fn copy_rest(out: &mut Vec<Expr>, items: &Vec<Expr>, from: usize)
    requires
        from <= items@.len(),
        old(out)@.len() == from,
    ensures
        final(out)@.len() == items@.len(),
        forall|j: int| 0 <= j < from ==> final(out)@[j] == old(out)@[j],
        forall|j: int| from <= j < items@.len() ==> final(out)@[j]@ == items@[j]@,
{
    let mut i = from;
    while i < items.len()
        invariant
            from <= i <= items@.len(),
            out@.len() == i,
            forall|j: int| 0 <= j < from ==> out@[j] == old(out)@[j],
            forall|j: int| from <= j < i ==> out@[j]@ == items@[j]@,
        decreases items@.len() - i,
    {
        out.push(items[i].clone());
        i = i + 1;
    }
}

/// Infers the items in order, up to the first for which no type is found.
fn infer_each(items: &Vec<Expr>) -> (r: (Vec<Expr>, Option<Vec<Type>>))
    ensures
        views(r.0@) == inferred_each(views(items@), items@.len()).0,
        match inferred_each(views(items@), items@.len()).1 {
            None => r.1 is None,
            Some(types) => r.1 is Some && r.1->0@ == types,
        },
    decreases items, 1nat,
{
    let ghost all = views(items@);
    let mut out: Vec<Expr> = Vec::new();
    let mut types: Vec<Type> = Vec::new();
    let mut i: usize = 0;
    while i < items.len()
        invariant
            i <= items@.len(),
            all == views(items@),
            out@.len() == i,
            inferred_each(all, i as nat).1 == Some(types@),
            inferred_each(all, i as nat).0.len() == all.len(),
            forall|j: int| 0 <= j < i ==> out@[j]@ == inferred_each(all, i as nat).0[j],
            forall|j: int| i <= j < all.len() ==> all[j] == inferred_each(all, i as nat).0[j],
        decreases items@.len() - i,
    {
        let ghost early = out@;
        let (x, t) = infer_expr(&items[i]);
        out.push(x);
        i = i + 1;
        match t {
            None => {
                let ghost done = out@;
                copy_rest(&mut out, items, i);
                proof {
                    let before = inferred_each(all, (i - 1) as nat);
                    let now = inferred_each(all, i as nat);
                    assert(now.0 == before.0.update(i - 1, done[i - 1]@));
                    assert(now.1 is None);
                    lemma_inferred_each_stops(all, i as nat, items@.len() as nat);
                    assert forall|j: int| 0 <= j < all.len() implies views(out@)[j] == now.0[j] by {
                        if j < i - 1 {
                            assert(out@[j] == done[j]);
                            assert(done[j] == early[j]);
                            assert(early[j]@ == before.0[j]);
                        } else if j == i - 1 {
                            assert(out@[j] == done[j]);
                        } else {
                            assert(out@[j]@ == items@[j]@);
                            assert(all[j] == before.0[j]);
                        }
                    }
                    assert(views(out@) =~= now.0);
                }
                return (out, None);
            },
            Some(t) => {
                types.push(t);
            },
        }
    }
    proof {
        assert(views(out@) =~= inferred_each(all, items@.len() as nat).0);
    }
    (out, Some(types))
}

/// Once no type was found for an item, the items behind it are left alone.
proof fn lemma_inferred_each_stops(items: Seq<ExprView>, k: nat, n: nat)
    requires
        k <= n <= items.len(),
        inferred_each(items, k).1 is None,
    ensures
        inferred_each(items, n) == inferred_each(items, k),
    decreases n - k,
{
    if k < n {
        lemma_inferred_each_stops(items, k, (n - 1) as nat);
    }
}

/// Once an item left something to say, the items behind it are left alone.
proof fn lemma_tabled_each_stops(
    items: Seq<ExprView>,
    k: nat,
    n: nat,
    params: Seq<VarView>,
    locals: Seq<VarView>,
    functions: Seq<VarView>,
)
    requires
        k <= n <= items.len(),
        tabled_each(items, k, params, locals, functions).1 is Some,
    ensures
        tabled_each(items, n, params, locals, functions) == tabled_each(
            items,
            k,
            params,
            locals,
            functions,
        ),
    decreases n - k,
{
    if k < n {
        lemma_tabled_each_stops(items, k, (n - 1) as nat, params, locals, functions);
    }
}

/// Infers the expressions of a block in order.
fn infer_block(items: &Vec<Expr>) -> (r: (Vec<Expr>, Option<Type>))
    ensures
        views(r.0@) == inferred_block(views(items@), items@.len()).0,
        r.1 == inferred_block(views(items@), items@.len()).1,
    decreases items, 1nat,
{
    let ghost all = views(items@);
    let mut out: Vec<Expr> = Vec::new();
    let mut last: Option<Type> = Some(Type::Bottom);
    let mut i: usize = 0;
    while i < items.len()
        invariant
            i <= items@.len(),
            all == views(items@),
            out@.len() == i,
            inferred_block(all, i as nat).1 == last,
            inferred_block(all, i as nat).0.len() == all.len(),
            forall|j: int| 0 <= j < i ==> out@[j]@ == inferred_block(all, i as nat).0[j],
            forall|j: int| i <= j < all.len() ==> all[j] == inferred_block(all, i as nat).0[j],
        decreases items@.len() - i,
    {
        let (x, t) = infer_expr(&items[i]);
        out.push(x);
        last = t;
        i = i + 1;
    }
    proof {
        assert(views(out@) =~= inferred_block(all, items@.len() as nat).0);
    }
    (out, last)
}

/// Whether all types of a list are the same.
fn all_same(types: &Vec<Type>) -> (r: bool)
    requires
        types@.len() > 0,
    ensures
        r == uniform(types@),
{
    let mut i: usize = 1;
    while i < types.len()
        invariant
            1 <= i <= types@.len(),
            forall|j: int| 0 <= j < i ==> #[trigger] types@[j] == types@[0],
        decreases types@.len() - i,
    {
        if types[i] != types[0] {
            return false;
        }
        i = i + 1;
    }
    true
}

/// Adds the types of `more` to `types`.
fn append_types(types: &Vec<Type>, more: &Vec<Type>) -> (r: Vec<Type>)
    ensures
        r@ == types@ + more@,
{
    let mut out = types.clone();
    let mut i: usize = 0;
    while i < more.len()
        invariant
            i <= more@.len(),
            out@ == types@ + more@.subrange(0, i as int),
        decreases more@.len() - i,
    {
        out.push(more[i]);
        i = i + 1;
        assert(out@ =~= types@ + more@.subrange(0, i as int));
    }
    assert(more@.subrange(0, more@.len() as int) =~= more@);
    out
}

/// Infers the type of an expression from what it holds: returns the
/// expression as inference leaves it, and the type found, if any.
pub fn infer_expr(expr: &Expr) -> (r: (Expr, Option<Type>))
    ensures
        r.0@ == inferred(expr@).0,
        r.1 == inferred(expr@).1,
    decreases expr, 0nat,
{
    proof {
        lemma_expr_view(*expr);
    }
    let r = match expr {
        Expr::Var(v) => {
            if v.type_ == Type::Bottom {
                (Expr::Var(v.clone()), None)
            } else {
                (Expr::Var(v.clone()), Some(v.type_))
            }
        },
        Expr::Literal(l) => (Expr::Literal(l.clone()), Some(l.get_type())),
        Expr::BinaryExpr(lhs, op, rhs) => {
            let (l, lt) = infer_expr(lhs);
            match lt {
                None => (Expr::BinaryExpr(Box::new(l), *op, Box::new((**rhs).clone())), None),
                Some(lt) => {
                    let (r, rt) = infer_expr(rhs);
                    let whole = Expr::BinaryExpr(Box::new(l), *op, Box::new(r));
                    match rt {
                        None => (whole, None),
                        Some(rt) => {
                            if lt == rt {
                                (whole, Some(lt))
                            } else if combine(lt, rt) == Type::Qbit {
                                (whole, Some(Type::Qbit))
                            } else {
                                (whole, None)
                            }
                        },
                    }
                },
            }
        },
        Expr::Tensor(items) => {
            let (out, types) = infer_each(items);
            let found = match types {
                None => None,
                Some(types) => {
                    if types.len() == 0 {
                        Some(Type::Bottom)
                    } else if all_same(&types) {
                        Some(types[0])
                    } else {
                        None
                    }
                },
            };
            (Expr::Tensor(out), found)
        },
        Expr::FnCall(f, args) => {
            if f.output_type == Type::Bottom && args.len() > 0 {
                let (out, types) = infer_each(args);
                match types {
                    None => (Expr::FnCall(f.clone(), out), None),
                    Some(types) => (
                        Expr::FnCall(
                            FunctionRef {
                                name: f.name.clone(),
                                location: f.location.clone(),
                                input_types: append_types(&f.input_types, &types),
                                output_type: f.output_type,
                            },
                            out,
                        ),
                        Some(f.output_type),
                    ),
                }
            } else {
                (Expr::FnCall(f.clone(), clone_all(args)), Some(f.output_type))
            }
        },
        Expr::Let(var, val) => {
            let (v, t) = infer_expr(val);
            let (bound, found) = infer_binding(var, t);
            (Expr::Let(bound, Box::new(v)), found)
        },
        Expr::Assign(var, val) => {
            let (v, t) = infer_expr(val);
            let (bound, found) = infer_binding(var, t);
            (Expr::Assign(bound, Box::new(v)), found)
        },
        Expr::Conditional(cond, yes, no) => {
            let (a, at) = infer_block(yes);
            let (b, bt) = infer_block(no);
            let found = if same_found(at, bt) {
                at
            } else {
                Some(Type::Bottom)
            };
            (Expr::Conditional(Box::new((**cond).clone()), a, b), found)
        },
    };
    proof {
        lemma_expr_view(r.0);
    }
    r
}

/// Whether the same was found twice.
fn same_found(a: Option<Type>, b: Option<Type>) -> (r: bool)
    ensures
        r == (a == b),
{
    match (a, b) {
        (None, None) => true,
        (Some(x), Some(y)) => x == y,
        _ => false,
    }
}

/// What a `let` or an assignment makes of its variable, given the type
/// found for its value.
fn infer_binding(var: &VarAST, value: Option<Type>) -> (r: (VarAST, Option<Type>))
    ensures
        r.0@ == inferred_binding(var@, value).0,
        r.1 == inferred_binding(var@, value).1,
{
    let mut bound = var.clone();
    match value {
        None => (bound, None),
        Some(t) => {
            if var.type_ == Type::Bottom {
                bound.type_ = t;
                (bound, Some(t))
            } else if var.type_ == t {
                (bound, Some(t))
            } else {
                (bound, None)
            }
        },
    }
}

/// Types the items from the tables in order, up to the first that leaves
/// something to say.
fn table_each(
    items: &Vec<Expr>,
    param_st: &SymbolTable,
    local_st: &SymbolTable,
    function_st: &SymbolTable,
) -> (r: (Vec<Expr>, Option<Result<Expr, QccErrorKind>>))
    ensures
        views(r.0@) == tabled_each(views(items@), items@.len(), param_st@, local_st@, function_st@).0,
        residual_view(r.1) == tabled_each(
            views(items@),
            items@.len(),
            param_st@,
            local_st@,
            function_st@,
        ).1,
    decreases items, 1nat,
{
    let ghost all = views(items@);
    let ghost p = param_st@;
    let ghost l = local_st@;
    let ghost f = function_st@;
    let mut out: Vec<Expr> = Vec::new();
    let mut i: usize = 0;
    while i < items.len()
        invariant
            i <= items@.len(),
            all == views(items@),
            p == param_st@,
            l == local_st@,
            f == function_st@,
            out@.len() == i,
            tabled_each(all, i as nat, p, l, f).1 is None,
            tabled_each(all, i as nat, p, l, f).0.len() == all.len(),
            forall|j: int| 0 <= j < i ==> out@[j]@ == tabled_each(all, i as nat, p, l, f).0[j],
            forall|j: int| i <= j < all.len() ==> all[j] == tabled_each(all, i as nat, p, l, f).0[j],
        decreases items@.len() - i,
    {
        let ghost early = out@;
        let (x, info) = infer_from_table(&items[i], param_st, local_st, function_st);
        out.push(x);
        i = i + 1;
        if info.is_some() {
            let ghost done = out@;
            copy_rest(&mut out, items, i);
            proof {
                let before = tabled_each(all, (i - 1) as nat, p, l, f);
                let now = tabled_each(all, i as nat, p, l, f);
                assert(now.0 == before.0.update(i - 1, done[i - 1]@));
                assert(now.1 is Some);
                lemma_tabled_each_stops(all, i as nat, items@.len() as nat, p, l, f);
                assert forall|j: int| 0 <= j < all.len() implies views(out@)[j] == now.0[j] by {
                    if j < i - 1 {
                        assert(out@[j] == done[j]);
                        assert(done[j] == early[j]);
                        assert(early[j]@ == before.0[j]);
                    } else if j == i - 1 {
                        assert(out@[j] == done[j]);
                    } else {
                        assert(out@[j]@ == items@[j]@);
                        assert(all[j] == before.0[j]);
                    }
                }
                assert(views(out@) =~= now.0);
            }
            return (out, info);
        }
    }
    proof {
        assert(views(out@) =~= tabled_each(all, items@.len() as nat, p, l, f).0);
    }
    (out, None)
}

/// What a `let` or an assignment makes of its variable once its value was
/// typed from the tables.
fn table_binding(var: &VarAST, value: &Expr, left: Option<Result<Expr, QccErrorKind>>) -> (r: (
    VarAST,
    Option<Result<Expr, QccErrorKind>>,
))
    ensures
        r.0@ == tabled_binding(var@, value@, residual_view(left)).0,
        residual_view(r.1) == tabled_binding(var@, value@, residual_view(left)).1,
{
    let mut bound = var.clone();
    if left.is_some() {
        return (bound, left);
    }
    let t = value.get_type();
    if var.type_ == Type::Bottom {
        bound.type_ = t;
        (bound, None)
    } else if var.type_ == t || (var.type_ == Type::Qbit && t == Type::Bit) || (var.type_
        == Type::Bit && t == Type::Qbit) {
        (bound, None)
    } else {
        (bound, Some(Err(QccErrorKind::TypeMismatch)))
    }
}

/// Types the parts of an expression from the tables of parameters, local
/// variables and functions: returns the expression as this leaves it, and
/// what is left to say: `None` if every part has its type, the part that is
/// in no table, or the kind of error that was met.
pub fn infer_from_table(
    expr: &Expr,
    param_st: &SymbolTable,
    local_st: &SymbolTable,
    function_st: &SymbolTable,
) -> (r: (Expr, Option<Result<Expr, QccErrorKind>>))
    ensures
        r.0@ == tabled(expr@, param_st@, local_st@, function_st@).0,
        residual_view(r.1) == tabled(expr@, param_st@, local_st@, function_st@).1,
    decreases expr, 0nat,
{
    proof {
        lemma_expr_view(*expr);
    }
    let r = match expr {
        Expr::Var(v) => {
            let p = param_st.variable_type(&v.name);
            let l = local_st.variable_type(&v.name);
            let mut var = v.clone();
            if p == Type::Bottom && l == Type::Bottom {
                let left = Expr::Var(
                    VarAST::new_with_type(v.name.clone(), v.location.clone(), v.type_),
                );
                proof {
                    lemma_expr_view(left);
                }
                (Expr::Var(var), Some(Ok(left)))
            } else if p != Type::Bottom {
                var.type_ = p;
                (Expr::Var(var), None)
            } else {
                var.type_ = l;
                (Expr::Var(var), None)
            }
        },
        Expr::Literal(l) => (Expr::Literal(l.clone()), None),
        Expr::BinaryExpr(lhs, op, rhs) => {
            let (l, info) = infer_from_table(lhs, param_st, local_st, function_st);
            if info.is_some() {
                (Expr::BinaryExpr(Box::new(l), *op, Box::new((**rhs).clone())), info)
            } else {
                let (r, info) = infer_from_table(rhs, param_st, local_st, function_st);
                (Expr::BinaryExpr(Box::new(l), *op, Box::new(r)), info)
            }
        },
        Expr::Tensor(items) => {
            let (out, info) = table_each(items, param_st, local_st, function_st);
            (Expr::Tensor(out), info)
        },
        Expr::FnCall(f, args) => {
            let (out, info) = table_each(args, param_st, local_st, function_st);
            if info.is_some() {
                (Expr::FnCall(f.clone(), out), info)
            } else {
                let t = function_st.function_type(&f.name);
                if t != Type::Bottom {
                    let mut g = f.clone();
                    g.output_type = t;
                    (Expr::FnCall(g, out), None)
                } else {
                    let mut g = FunctionRef::new(f.name.clone(), f.location.clone());
                    g.output_type = f.output_type;
                    let left = Expr::FnCall(g, Vec::new());
                    proof {
                        lemma_expr_view(left);
                        assert(views(Seq::<Expr>::empty()) =~= Seq::<ExprView>::empty());
                    }
                    (Expr::FnCall(f.clone(), out), Some(Ok(left)))
                }
            }
        },
        Expr::Let(var, val) => {
            let (v, info) = infer_from_table(val, param_st, local_st, function_st);
            let (bound, info) = table_binding(var, &v, info);
            (Expr::Let(bound, Box::new(v)), info)
        },
        Expr::Assign(var, val) => {
            let (v, info) = infer_from_table(val, param_st, local_st, function_st);
            let (bound, info) = table_binding(var, &v, info);
            (Expr::Assign(bound, Box::new(v)), info)
        },
        Expr::Conditional(cond, yes, no) => {
            let (a, info) = table_each(yes, param_st, local_st, function_st);
            if info.is_some() {
                (Expr::Conditional(Box::new((**cond).clone()), a, clone_all(no)), info)
            } else {
                let (b, info) = table_each(no, param_st, local_st, function_st);
                (Expr::Conditional(Box::new((**cond).clone()), a, b), info)
            }
        },
    };
    proof {
        lemma_expr_view(r.0);
    }
    r
}

/// What inference has to say of a function.
#[derive(Debug)]
pub enum TypeReport {
    /// no type could be found for this part
    Unknown(Expr),
    /// this instruction holds types that do not go together
    Mismatch(QccErrorKind, Expr),
    /// the last expression of a function has not the type that the
    /// function declares
    Return { last: Expr, found: Type, function: Ident, declared: Type },
}

pub enum ReportView {
    Unknown(ExprView),
    Mismatch(QccErrorKind, ExprView),
    Return { last: ExprView, found: Type, function: Seq<char>, declared: Type },
}

impl View for TypeReport {
    type V = ReportView;

    open spec fn view(&self) -> ReportView {
        match self {
            TypeReport::Unknown(e) => ReportView::Unknown(e@),
            TypeReport::Mismatch(kind, e) => ReportView::Mismatch(*kind, e@),
            TypeReport::Return { last, found, function, declared } => ReportView::Return {
                last: last@,
                found: *found,
                function: function@,
                declared: *declared,
            },
        }
    }
}

impl ReportView {
    /// The kind of error a report stands for.
    pub open spec fn kind(self) -> QccErrorKind {
        match self {
            ReportView::Unknown(_) => QccErrorKind::UnknownType,
            ReportView::Mismatch(kind, _) => kind,
            ReportView::Return { .. } => QccErrorKind::TypeMismatch,
        }
    }
}

impl TypeReport {
    /// The kind of error the report stands for.
    pub fn kind(&self) -> (k: QccErrorKind)
        ensures
            k == self@.kind(),
    {
        match self {
            TypeReport::Unknown(_) => QccErrorKind::UnknownType,
            TypeReport::Mismatch(kind, _) => *kind,
            TypeReport::Return { .. } => QccErrorKind::TypeMismatch,
        }
    }
}

/// The models of a list of reports.
pub open spec fn report_views(reports: Seq<TypeReport>) -> Seq<ReportView> {
    Seq::new(reports.len(), |i: int| reports[i]@)
}

/// The table of local variables with what instruction `e` defines: the
/// variable of a `let`, once it has a type.
pub open spec fn noted(locals: Seq<VarView>, e: ExprView) -> Seq<VarView> {
    match e {
        ExprView::Let(var, _) => if var.is_typed() {
            inserted(locals, var)
        } else {
            locals
        },
        _ => locals,
    }
}

/// The local variables that the first `k` instructions of a body declare
/// with a type.
pub open spec fn declared_locals(body: Seq<ExprView>, k: nat) -> Seq<VarView>
    decreases k,
{
    if k == 0 || k > body.len() {
        Seq::empty()
    } else {
        noted(declared_locals(body, (k - 1) as nat), body[k - 1])
    }
}

/// One instruction typed: first from what it holds and, if that finds no
/// type, from the tables. Gives the instruction as it is left, the table of
/// local variables after it, and the report, if there is one to make.
pub open spec fn settled(
    e: ExprView,
    params: Seq<VarView>,
    locals: Seq<VarView>,
    functions: Seq<VarView>,
) -> (ExprView, Seq<VarView>, Option<ReportView>) {
    let first = inferred(e);
    if first.1 is Some && first.1->0 != Type::Bottom {
        (first.0, noted(locals, first.0), None)
    } else {
        let second = tabled(first.0, params, locals, functions);
        match second.1 {
            None => (second.0, noted(locals, second.0), None),
            Some(Ok(left)) => (second.0, locals, Some(ReportView::Unknown(left))),
            Some(Err(kind)) => (second.0, locals, Some(ReportView::Mismatch(kind, second.0))),
        }
    }
}

/// How far the work on a body has come.
pub struct Progress {
    pub body: Seq<ExprView>,
    pub locals: Seq<VarView>,
    pub reports: Seq<ReportView>,
}

/// The state after the first `k` instructions of `body` were typed in
/// order. At the start the local variables are those that the body declares
/// with a type.
pub open spec fn progress(
    body: Seq<ExprView>,
    k: nat,
    params: Seq<VarView>,
    functions: Seq<VarView>,
) -> Progress
    decreases k,
{
    if k == 0 || k > body.len() {
        Progress { body, locals: declared_locals(body, body.len()), reports: Seq::empty() }
    } else {
        let before = progress(body, (k - 1) as nat, params, functions);
        let s = settled(body[k - 1], params, before.locals, functions);
        Progress {
            body: before.body.update(k - 1, s.0),
            locals: s.1,
            reports: match s.2 {
                Some(r) => before.reports.push(r),
                None => before.reports,
            },
        }
    }
}

/// The type to show for what was found.
pub open spec fn shown(found: Option<Type>) -> Type {
    match found {
        Some(t) => t,
        None => Type::Bottom,
    }
}

/// A function after inference, with the reports made on the way. Its
/// instructions are typed in order. Then its last expression is inferred
/// once more: a function that declares no result type takes the type found,
/// and one that declares another type than the one found is reported.
pub open spec fn inferred_function(f: FunctionView, functions: Seq<VarView>) -> (
    FunctionView,
    Seq<ReportView>,
) {
    let p = progress(f.body, f.body.len(), f.params, functions);
    if f.body.len() == 0 {
        (f, p.reports)
    } else {
        let last = inferred(p.body.last());
        let body = p.body.update(f.body.len() - 1, last.0);
        if f.output_type == Type::Bottom && last.1 is Some && last.1->0 != Type::Bottom {
            (FunctionView { output_type: last.1->0, body, ..f }, p.reports)
        } else if last.1 != Some(f.output_type) {
            (
                FunctionView { body, ..f },
                p.reports.push(
                    ReportView::Return {
                        last: last.0,
                        found: shown(last.1),
                        function: f.name,
                        declared: f.output_type,
                    },
                ),
            )
        } else {
            (FunctionView { body, ..f }, p.reports)
        }
    }
}

/// The two entries of a function in the table of functions: one under its
/// own name and one under its name with that of its module before it.
pub open spec fn entries_of(module: Seq<char>, f: FunctionView) -> (VarView, VarView) {
    (
        VarView { name: f.name, location: f.location, type_: f.output_type, unary_negative: false },
        VarView {
            name: mangled(module, f.name),
            location: f.location,
            type_: f.output_type,
            unary_negative: false,
        },
    )
}

/// `table` with the entries of the first `k` functions of module `m`.
pub open spec fn module_entries(table: Seq<VarView>, m: ModuleView, k: nat) -> Seq<VarView>
    decreases k,
{
    if k == 0 || k > m.functions.len() {
        table
    } else {
        let e = entries_of(m.name, m.functions[k - 1]);
        inserted(inserted(module_entries(table, m, (k - 1) as nat), e.0), e.1)
    }
}

/// The table of the functions of the first `k` modules of a program.
pub open spec fn function_table(p: Seq<ModuleView>, k: nat) -> Seq<VarView>
    decreases k,
{
    if k == 0 || k > p.len() {
        Seq::empty()
    } else {
        module_entries(function_table(p, (k - 1) as nat), p[k - 1], p[k - 1].functions.len())
    }
}

/// The first `k` functions of `m` after inference, and the reports made.
pub open spec fn inferred_functions(m: ModuleView, k: nat, functions: Seq<VarView>) -> (
    Seq<FunctionView>,
    Seq<ReportView>,
)
    decreases k,
{
    if k == 0 || k > m.functions.len() {
        (Seq::empty(), Seq::empty())
    } else {
        let before = inferred_functions(m, (k - 1) as nat, functions);
        let f = inferred_function(m.functions[k - 1], functions);
        (before.0.push(f.0), before.1 + f.1)
    }
}

/// The first `k` modules of `p` after inference, and the reports made.
pub open spec fn inferred_modules(p: Seq<ModuleView>, k: nat, functions: Seq<VarView>) -> (
    Seq<ModuleView>,
    Seq<ReportView>,
)
    decreases k,
{
    if k == 0 || k > p.len() {
        (Seq::empty(), Seq::empty())
    } else {
        let before = inferred_modules(p, (k - 1) as nat, functions);
        let m = p[k - 1];
        let fs = inferred_functions(m, m.functions.len(), functions);
        (before.0.push(ModuleView { functions: fs.0, ..m }), before.1 + fs.1)
    }
}

/// A program after inference, with the reports made. The table of
/// functions is made of the program as it comes; then the program is
/// mangled; then each function is inferred.
pub open spec fn inferred_program(p: Seq<ModuleView>) -> (Seq<ModuleView>, Seq<ReportView>) {
    inferred_modules(mangled_program(p), p.len(), function_table(p, p.len()))
}

/// The table of local variables with what an instruction defines.
fn note(local_st: &mut SymbolTable, e: &Expr)
    ensures
        final(local_st)@ == noted(old(local_st)@, e@),
{
    proof {
        lemma_expr_view(*e);
    }
    match e {
        Expr::Let(var, _) => {
            if var.is_typed() {
                local_st.push(var.clone());
            }
        },
        _ => {},
    }
}

/// Infers the types in one function, given the table of all functions.
pub fn infer_function(f: &FunctionAST, function_st: &SymbolTable) -> (r: (FunctionAST, Vec<TypeReport>))
    ensures
        r.0@ == inferred_function(f@, function_st@).0,
        report_views(r.1@) == inferred_function(f@, function_st@).1,
{
    let ghost body = f@.body;
    let ghost params = f@.params;
    let ghost functions = function_st@;
    let param_st = SymbolTable { table: clone_vars(&f.params) };
    let mut local_st = SymbolTable::new();
    let n = f.body.len();
    let mut i: usize = 0;
    while i < n
        invariant
            i <= n == f.body@.len(),
            body == views(f.body@),
            local_st@ == declared_locals(body, i as nat),
        decreases n - i,
    {
        note(&mut local_st, &f.body[i]);
        i = i + 1;
    }
    let mut out: Vec<Expr> = Vec::new();
    let mut reports: Vec<TypeReport> = Vec::new();
    let mut k: usize = 0;
    assert(report_views(reports@) =~= Seq::<ReportView>::empty());
    while k < n
        invariant
            k <= n == f.body@.len(),
            body == views(f.body@),
            params == param_st@,
            functions == function_st@,
            out@.len() == k,
            progress(body, k as nat, params, functions).body.len() == n,
            forall|j: int| 0 <= j < k ==> out@[j]@ == progress(body, k as nat, params, functions).body[j],
            forall|j: int| k <= j < n ==> body[j] == progress(body, k as nat, params, functions).body[j],
            local_st@ == progress(body, k as nat, params, functions).locals,
            report_views(reports@) == progress(body, k as nat, params, functions).reports,
        decreases n - k,
    {
        let ghost early = out@;
        let ghost before = progress(body, k as nat, params, functions);
        let ghost told = report_views(reports@);
        let (first, found) = infer_expr(&f.body[k]);
        let typed = match found {
            Some(t) => t != Type::Bottom,
            None => false,
        };
        if typed {
            note(&mut local_st, &first);
            out.push(first);
        } else {
            let (second, info) = infer_from_table(&first, &param_st, &local_st, function_st);
            match info {
                None => {
                    note(&mut local_st, &second);
                },
                Some(Ok(left)) => {
                    reports.push(TypeReport::Unknown(left));
                    assert(report_views(reports@) =~= told.push(ReportView::Unknown(left@)));
                },
                Some(Err(kind)) => {
                    reports.push(TypeReport::Mismatch(kind, second.clone()));
                    assert(report_views(reports@) =~= told.push(ReportView::Mismatch(kind, second@)));
                },
            }
            out.push(second);
        }
        k = k + 1;
        proof {
            let now = progress(body, k as nat, params, functions);
            let s = settled(body[k - 1], params, before.locals, functions);
            assert(now.body == before.body.update(k - 1, s.0));
            assert forall|j: int| 0 <= j < k implies out@[j]@ == now.body[j] by {
                if j < k - 1 {
                    assert(out@[j] == early[j]);
                }
            }
        }
    }
    let ghost p = progress(body, n as nat, params, functions);
    let mut output_type = f.output_type;
    if n > 0 {
        let ghost told = report_views(reports@);
        let ghost done = out@;
        let (last, found) = infer_expr(&out[n - 1]);
        let promote = match found {
            Some(t) => f.output_type == Type::Bottom && t != Type::Bottom,
            None => false,
        };
        if promote {
            output_type = found.unwrap();
        } else if !same_found(found, Some(f.output_type)) {
            let shown = match found {
                Some(t) => t,
                None => Type::Bottom,
            };
            reports.push(
                TypeReport::Return {
                    last: last.clone(),
                    found: shown,
                    function: f.name.clone(),
                    declared: f.output_type,
                },
            );
            assert(report_views(reports@) =~= told.push(
                ReportView::Return {
                    last: last@,
                    found: shown,
                    function: f@.name,
                    declared: f@.output_type,
                },
            ));
        }
        out.set(n - 1, last);
        proof {
            assert(views(done) =~= p.body);
            assert(views(out@) =~= p.body.update(n - 1, last@));
        }
    } else {
        assert(views(out@) =~= f@.body);
    }
    let r = FunctionAST {
        name: f.name.clone(),
        location: f.location.clone(),
        params: clone_vars(&f.params),
        input_type: f.input_type.clone(),
        output_type,
        attrs: f.attrs.clone(),
        body: out,
    };
    (r, reports)
}

/// Adds the reports of `more` to `reports`.
fn append_reports(reports: &mut Vec<TypeReport>, more: Vec<TypeReport>)
    ensures
        report_views(final(reports)@) == report_views(old(reports)@) + report_views(more@),
{
    let mut more = more;
    let ghost all = more@;
    let ghost start = reports@;
    reports.append(&mut more);
    assert(report_views(reports@) =~= report_views(start) + report_views(all));
}

/// Makes the table of the functions of a program: for each function one
/// entry under its name and one under `Module$name`, both with the result
/// type that the function declares.
pub fn build_function_table(ast: &Qast) -> (table: SymbolTable)
    ensures
        table@ == function_table(ast@, ast@.len()),
{
    let mut table = SymbolTable::new();
    let mut i: usize = 0;
    while i < ast.modules.len()
        invariant
            i <= ast.modules@.len(),
            ast@.len() == ast.modules@.len(),
            table@ == function_table(ast@, i as nat),
        decreases ast.modules@.len() - i,
    {
        let module = &ast.modules[i];
        assert(ast@[i as int] == module@);
        let mut k: usize = 0;
        while k < module.functions.len()
            invariant
                k <= module.functions@.len(),
                module@.functions.len() == module.functions@.len(),
                table@ == module_entries(function_table(ast@, i as nat), module@, k as nat),
            decreases module.functions@.len() - k,
        {
            let f = &module.functions[k];
            assert(module@.functions[k as int] == f@);
            table.push(VarAST::new_with_type(f.name.clone(), f.location.clone(), f.output_type));
            table.push(
                VarAST::new_with_type(
                    mangle_name(&module.name, &f.name),
                    f.location.clone(),
                    f.output_type,
                ),
            );
            k = k + 1;
        }
        i = i + 1;
    }
    table
}

/// Infers the types in a program and returns the reports made on the way.
/// The program is mangled first. A report does not end the work: the
/// functions behind it are inferred as well.
pub fn diagnose(ast: &mut Qast) -> (reports: Vec<TypeReport>)
    ensures
        final(ast)@ == inferred_program(old(ast)@).0,
        report_views(reports@) == inferred_program(old(ast)@).1,
{
    let function_st = build_function_table(ast);
    let _ = mangle(ast);
    let ghost p = ast@;
    let ghost table = function_st@;
    let mut modules: Vec<ModuleAST> = Vec::new();
    let mut reports: Vec<TypeReport> = Vec::new();
    let mut i: usize = 0;
    assert(report_views(reports@) =~= Seq::<ReportView>::empty());
    while i < ast.modules.len()
        invariant
            i <= ast.modules@.len(),
            ast@ == p,
            p.len() == ast.modules@.len(),
            table == function_st@,
            modules@.len() == i,
            inferred_modules(p, i as nat, table).0.len() == i,
            forall|j: int| 0 <= j < i ==> modules@[j]@ == inferred_modules(p, i as nat, table).0[j],
            report_views(reports@) == inferred_modules(p, i as nat, table).1,
        decreases ast.modules@.len() - i,
    {
        let module = &ast.modules[i];
        assert(p[i as int] == module@);
        let ghost early = modules@;
        let mut functions: Vec<FunctionAST> = Vec::new();
        let mut found: Vec<TypeReport> = Vec::new();
        let mut k: usize = 0;
        assert(report_views(found@) =~= Seq::<ReportView>::empty());
        while k < module.functions.len()
            invariant
                k <= module.functions@.len(),
                module@.functions.len() == module.functions@.len(),
                table == function_st@,
                functions@.len() == k,
                inferred_functions(module@, k as nat, table).0.len() == k,
                forall|j: int| 0 <= j < k ==> functions@[j]@ == inferred_functions(module@, k as nat, table).0[j],
                report_views(found@) == inferred_functions(module@, k as nat, table).1,
            decreases module.functions@.len() - k,
        {
            let f = &module.functions[k];
            assert(module@.functions[k as int] == f@);
            let ghost first = functions@;
            let (g, more) = infer_function(f, &function_st);
            functions.push(g);
            append_reports(&mut found, more);
            k = k + 1;
            proof {
                assert forall|j: int| 0 <= j < k implies functions@[j]@ == inferred_functions(
                    module@,
                    k as nat,
                    table,
                ).0[j] by {
                    if j < k - 1 {
                        assert(functions@[j] == first[j]);
                    }
                }
            }
        }
        let done = ModuleAST {
            name: module.name.clone(),
            location: module.location.clone(),
            functions,
        };
        proof {
            assert(done@.functions =~= inferred_functions(module@, module@.functions.len(), table).0);
        }
        modules.push(done);
        append_reports(&mut reports, found);
        i = i + 1;
        proof {
            assert forall|j: int| 0 <= j < i implies modules@[j]@ == inferred_modules(p, i as nat, table).0[j] by {
                if j < i - 1 {
                    assert(modules@[j] == early[j]);
                }
            }
        }
    }
    ast.modules = modules;
    proof {
        assert(final(ast)@ =~= inferred_modules(p, p.len(), table).0);
        assert(p.len() == old(ast)@.len());
    }
    reports
}

/// Infers the types in a program. The program is mangled first. Fails with
/// a type error if any report was made; the program is typed as far as
/// inference came.
pub fn infer(ast: &mut Qast) -> (r: Result<(), QccError>)
    ensures
        final(ast)@ == inferred_program(old(ast)@).0,
        inferred_program(old(ast)@).1.len() == 0 ==> r is Ok,
        inferred_program(old(ast)@).1.len() > 0 ==> r == Err::<(), QccError>(
            QccError(QccErrorKind::TypeError),
        ),
{
    let reports = diagnose(ast);
    if reports.len() > 0 {
        Err(QccError(QccErrorKind::TypeError))
    } else {
        Ok(())
    }
}

/// The type that a fully typed expression has, or what is wrong with it:
/// a variable or a call without a type is of unknown type; the two sides
/// of an operator, the items of a tensor, the two sides of a `let` and the
/// two branches of a conditional have to be of one type.
pub open spec fn checked(e: ExprView) -> Result<Type, QccErrorKind>
    decreases e, 0nat,
{
    match e {
        ExprView::Var(v) => if v.is_typed() {
            Ok(v.type_)
        } else {
            Err(QccErrorKind::UnknownType)
        },
        ExprView::Literal(l) => Ok(l.type_of()),
        ExprView::BinaryExpr(lhs, _, rhs) => match checked(*lhs) {
            Err(kind) => Err(kind),
            Ok(l) => match checked(*rhs) {
                Err(kind) => Err(kind),
                Ok(r) => if l == r {
                    Ok(l)
                } else {
                    Err(QccErrorKind::TypeMismatch)
                },
            },
        },
        ExprView::Tensor(items) => match checked_each(items, items.len()) {
            Err(kind) => Err(kind),
            Ok(types) => if types.len() == 0 {
                Ok(Type::Bottom)
            } else if uniform(types) {
                Ok(types[0])
            } else {
                Err(QccErrorKind::TypeMismatch)
            },
        },
        ExprView::FnCall(f, args) => match checked_each(args, args.len()) {
            Err(kind) => Err(kind),
            Ok(_) => if f.output_type == Type::Bottom {
                Err(QccErrorKind::UnknownType)
            } else {
                Ok(f.output_type)
            },
        },
        ExprView::Let(var, val) => checked_binding(var, checked(*val)),
        ExprView::Assign(var, val) => checked_binding(var, checked(*val)),
        ExprView::Conditional(_, yes, no) => match checked_each(yes, yes.len()) {
            Err(kind) => Err(kind),
            Ok(first) => match checked_each(no, no.len()) {
                Err(kind) => Err(kind),
                Ok(second) => if first.len() == 0 && second.len() == 0 {
                    Ok(Type::Bottom)
                } else if second.len() == 0 {
                    Ok(first.last())
                } else if first.len() == 0 {
                    Ok(second.last())
                } else if first.last() == second.last() {
                    Ok(first.last())
                } else {
                    Err(QccErrorKind::TypeMismatch)
                },
            },
        },
    }
}

/// What a `let` or an assignment is checked to, given what its value was
/// checked to.
pub open spec fn checked_binding(var: VarView, value: Result<Type, QccErrorKind>) -> Result<
    Type,
    QccErrorKind,
> {
    if !var.is_typed() {
        Err(QccErrorKind::UnknownType)
    } else {
        match value {
            Err(kind) => Err(kind),
            Ok(t) => if var.type_ == t {
                Ok(t)
            } else {
                Err(QccErrorKind::TypeMismatch)
            },
        }
    }
}

/// The types of the first `k` of `items`, or the first error among them.
pub open spec fn checked_each(items: Seq<ExprView>, k: nat) -> Result<Seq<Type>, QccErrorKind>
    decreases items, k,
{
    if k == 0 || k > items.len() {
        Ok(Seq::empty())
    } else {
        match checked_each(items, (k - 1) as nat) {
            Err(kind) => Err(kind),
            Ok(types) => match checked(items[k - 1]) {
                Err(kind) => Err(kind),
                Ok(t) => Ok(types.push(t)),
            },
        }
    }
}

/// The first error among the items stays the error of all.
proof fn lemma_checked_each_stops(items: Seq<ExprView>, k: nat, n: nat)
    requires
        k <= n <= items.len(),
        checked_each(items, k) is Err,
    ensures
        checked_each(items, n) == checked_each(items, k),
    decreases n - k,
{
    if k < n {
        lemma_checked_each_stops(items, k, (n - 1) as nat);
    }
}

/// Checks the items of a list in order.
fn check_each(items: &Vec<Expr>) -> (r: Result<Vec<Type>, QccError>)
    ensures
        match checked_each(views(items@), items@.len()) {
            Ok(types) => r is Ok && r->Ok_0@ == types,
            Err(kind) => r == Err::<Vec<Type>, QccError>(QccError(kind)),
        },
    decreases items, 1nat,
{
    let mut types: Vec<Type> = Vec::new();
    let mut i: usize = 0;
    while i < items.len()
        invariant
            i <= items@.len(),
            checked_each(views(items@), i as nat) == Ok::<Seq<Type>, QccErrorKind>(types@),
        decreases items@.len() - i,
    {
        match check_expr(&items[i]) {
            Err(e) => {
                proof {
                    lemma_checked_each_stops(views(items@), (i + 1) as nat, items@.len() as nat);
                }
                return Err(e);
            },
            Ok(t) => {
                types.push(t);
            },
        }
        i = i + 1;
    }
    Ok(types)
}

/// Checks that an expression is fully typed and that its types agree, and
/// returns its type.
pub fn check_expr(expr: &Expr) -> (r: Result<Type, QccError>)
    ensures
        r == match checked(expr@) {
            Ok(t) => Ok::<Type, QccError>(t),
            Err(kind) => Err(QccError(kind)),
        },
    decreases expr, 0nat,
{
    proof {
        lemma_expr_view(*expr);
    }
    match expr {
        Expr::Var(v) => {
            if v.is_typed() {
                Ok(v.get_type())
            } else {
                Err(QccError(QccErrorKind::UnknownType))
            }
        },
        Expr::Literal(l) => Ok(l.get_type()),
        Expr::BinaryExpr(lhs, _, rhs) => {
            let l = check_expr(lhs)?;
            let r = check_expr(rhs)?;
            if l == r {
                Ok(l)
            } else {
                Err(QccError(QccErrorKind::TypeMismatch))
            }
        },
        Expr::Tensor(items) => {
            let types = check_each(items)?;
            if types.len() == 0 {
                Ok(Type::Bottom)
            } else if all_same(&types) {
                Ok(types[0])
            } else {
                Err(QccError(QccErrorKind::TypeMismatch))
            }
        },
        Expr::FnCall(f, args) => {
            let _ = check_each(args)?;
            if f.output_type == Type::Bottom {
                Err(QccError(QccErrorKind::UnknownType))
            } else {
                Ok(f.output_type)
            }
        },
        Expr::Let(var, val) => {
            if !var.is_typed() {
                return Err(QccError(QccErrorKind::UnknownType));
            }
            let t = check_expr(val)?;
            if var.get_type() == t {
                Ok(t)
            } else {
                Err(QccError(QccErrorKind::TypeMismatch))
            }
        },
        Expr::Assign(var, val) => {
            if !var.is_typed() {
                return Err(QccError(QccErrorKind::UnknownType));
            }
            let t = check_expr(val)?;
            if var.get_type() == t {
                Ok(t)
            } else {
                Err(QccError(QccErrorKind::TypeMismatch))
            }
        },
        Expr::Conditional(_, yes, no) => {
            let first = check_each(yes)?;
            let second = check_each(no)?;
            if first.len() == 0 && second.len() == 0 {
                Ok(Type::Bottom)
            } else if second.len() == 0 {
                Ok(first[first.len() - 1])
            } else if first.len() == 0 {
                Ok(second[second.len() - 1])
            } else if first[first.len() - 1] == second[second.len() - 1] {
                Ok(first[first.len() - 1])
            } else {
                Err(QccError(QccErrorKind::TypeMismatch))
            }
        },
    }
}

/// The first error among the instructions of a body, if any.
pub open spec fn checked_body(body: Seq<ExprView>) -> Result<(), QccErrorKind> {
    match checked_each(body, body.len()) {
        Ok(_) => Ok(()),
        Err(kind) => Err(kind),
    }
}

/// The first error in the first `k` functions of a module, if any.
pub open spec fn checked_functions(functions: Seq<FunctionView>, k: nat) -> Result<(), QccErrorKind>
    decreases k,
{
    if k == 0 || k > functions.len() {
        Ok(())
    } else {
        match checked_functions(functions, (k - 1) as nat) {
            Err(kind) => Err(kind),
            Ok(()) => checked_body(functions[k - 1].body),
        }
    }
}

/// The first error in the first `k` modules of a program, if any.
pub open spec fn checked_program(p: Seq<ModuleView>, k: nat) -> Result<(), QccErrorKind>
    decreases k,
{
    if k == 0 || k > p.len() {
        Ok(())
    } else {
        match checked_program(p, (k - 1) as nat) {
            Err(kind) => Err(kind),
            Ok(()) => checked_functions(p[k - 1].functions, p[k - 1].functions.len()),
        }
    }
}

/// Checks that every instruction of a program is fully typed and that its
/// types agree; fails with the first error met.
pub fn checker(ast: &Qast) -> (r: Result<(), QccError>)
    ensures
        r == match checked_program(ast@, ast@.len()) {
            Ok(()) => Ok::<(), QccError>(()),
            Err(kind) => Err(QccError(kind)),
        },
{
    let mut i: usize = 0;
    while i < ast.modules.len()
        invariant
            i <= ast.modules@.len(),
            ast@.len() == ast.modules@.len(),
            checked_program(ast@, i as nat) is Ok,
        decreases ast.modules@.len() - i,
    {
        let m = &ast.modules[i];
        assert(ast@[i as int] == m@);
        let mut k: usize = 0;
        while k < m.functions.len()
            invariant
                k <= m.functions@.len(),
                m@.functions.len() == m.functions@.len(),
                i < ast.modules@.len(),
                ast@.len() == ast.modules@.len(),
                ast@[i as int] == m@,
                checked_program(ast@, i as nat) is Ok,
                checked_functions(m@.functions, k as nat) is Ok,
            decreases m.functions@.len() - k,
        {
            let f = &m.functions[k];
            assert(m@.functions[k as int] == f@);
            match check_each(&f.body) {
                Err(e) => {
                    proof {
                        lemma_checked_functions_stops(
                            m@.functions,
                            (k + 1) as nat,
                            m@.functions.len(),
                        );
                        lemma_checked_program_stops(ast@, (i + 1) as nat, ast@.len());
                    }
                    return Err(e);
                },
                Ok(_) => {},
            }
            k = k + 1;
        }
        i = i + 1;
    }
    Ok(())
}

proof fn lemma_checked_functions_stops(functions: Seq<FunctionView>, k: nat, n: nat)
    requires
        k <= n <= functions.len(),
        checked_functions(functions, k) is Err,
    ensures
        checked_functions(functions, n) == checked_functions(functions, k),
    decreases n - k,
{
    if k < n {
        lemma_checked_functions_stops(functions, k, (n - 1) as nat);
    }
}

proof fn lemma_checked_program_stops(p: Seq<ModuleView>, k: nat, n: nat)
    requires
        k <= n <= p.len(),
        checked_program(p, k) is Err,
    ensures
        checked_program(p, n) == checked_program(p, k),
    decreases n - k,
{
    if k < n {
        lemma_checked_program_stops(p, k, (n - 1) as nat);
    }
}

/// The variables of an expression that have a type, in the order in which
/// they stand: those of the operands of an operator, of the arguments of a
/// call, and of a `let`, its own variable first.
pub open spec fn typed_vars(e: ExprView) -> Seq<VarView>
    decreases e, 0nat,
{
    match e {
        ExprView::Var(v) => if v.is_typed() {
            seq![v]
        } else {
            Seq::empty()
        },
        ExprView::BinaryExpr(lhs, _, rhs) => typed_vars(*lhs) + typed_vars(*rhs),
        ExprView::FnCall(_, args) => typed_vars_in(args, args.len()),
        ExprView::Let(var, val) => (if var.is_typed() {
            seq![var]
        } else {
            Seq::empty()
        }) + typed_vars(*val),
        _ => Seq::empty(),
    }
}

/// The typed variables of the first `k` of `items`.
pub open spec fn typed_vars_in(items: Seq<ExprView>, k: nat) -> Seq<VarView>
    decreases items, k,
{
    if k == 0 || k > items.len() {
        Seq::empty()
    } else {
        typed_vars_in(items, (k - 1) as nat) + typed_vars(items[k - 1])
    }
}

/// Adds copies of the variables of `more` to `vars`.
fn append_vars(vars: &mut Vec<VarAST>, more: Vec<VarAST>)
    ensures
        var_views(final(vars)@) == var_views(old(vars)@) + var_views(more@),
{
    let mut more = more;
    let ghost all = more@;
    let ghost start = vars@;
    vars.append(&mut more);
    assert(var_views(vars@) =~= var_views(start) + var_views(all));
}

/// Gathers the typed variables of a list of expressions.
fn gather_in(items: &Vec<Expr>) -> (r: Vec<VarAST>)
    ensures
        var_views(r@) == typed_vars_in(views(items@), items@.len()),
    decreases items, 1nat,
{
    let mut symbols: Vec<VarAST> = Vec::new();
    let mut i: usize = 0;
    assert(var_views(symbols@) =~= typed_vars_in(views(items@), 0));
    while i < items.len()
        invariant
            i <= items@.len(),
            var_views(symbols@) == typed_vars_in(views(items@), i as nat),
        decreases items@.len() - i,
    {
        append_vars(&mut symbols, gather_already_typed(&items[i]));
        i = i + 1;
    }
    symbols
}

/// Gathers the variables of an expression that have a type.
pub fn gather_already_typed(expr: &Expr) -> (r: Vec<VarAST>)
    ensures
        var_views(r@) == typed_vars(expr@),
    decreases expr, 0nat,
{
    proof {
        lemma_expr_view(*expr);
    }
    let mut symbols: Vec<VarAST> = Vec::new();
    assert(var_views(symbols@) =~= Seq::<VarView>::empty());
    match expr {
        Expr::Var(v) => {
            if v.is_typed() {
                symbols.push(v.clone());
                assert(var_views(symbols@) =~= seq![v@]);
            }
        },
        Expr::BinaryExpr(lhs, _, rhs) => {
            append_vars(&mut symbols, gather_already_typed(lhs));
            append_vars(&mut symbols, gather_already_typed(rhs));
            assert(var_views(symbols@) =~= typed_vars(expr@));
        },
        Expr::FnCall(_, args) => {
            symbols = gather_in(args);
        },
        Expr::Let(var, val) => {
            if var.is_typed() {
                symbols.push(var.clone());
                assert(var_views(symbols@) =~= seq![var@]);
            }
            append_vars(&mut symbols, gather_already_typed(val));
            assert(var_views(symbols@) =~= typed_vars(expr@));
        },
        _ => {},
    }
    symbols
}

/// A function that declares no result type and is inferred without a
/// report ends with the type that was found for its last expression.
pub proof fn lemma_result_type_inferred(f: FunctionView, functions: Seq<VarView>)
    requires
        f.output_type == Type::Bottom,
        f.body.len() > 0,
        inferred_function(f, functions).1.len() == 0,
    ensures
        inferred(progress(f.body, f.body.len(), f.params, functions).body.last()).1 == Some(
            inferred_function(f, functions).0.output_type,
        ),
        inferred_function(f, functions).0.body.last() == inferred(
            progress(f.body, f.body.len(), f.params, functions).body.last(),
        ).0,
{
    let p = progress(f.body, f.body.len(), f.params, functions);
    lemma_progress_len(f.body, f.body.len(), f.params, functions);
}

/// Typing the instructions of a body keeps their number.
pub proof fn lemma_progress_len(body: Seq<ExprView>, k: nat, params: Seq<VarView>, functions: Seq<VarView>)
    ensures
        progress(body, k, params, functions).body.len() == body.len(),
    decreases k,
{
    if k > 0 && k <= body.len() {
        lemma_progress_len(body, (k - 1) as nat, params, functions);
    }
}

/// Inference keeps the number of functions of a module, and reports what
/// the inference of each of them reports.
pub proof fn lemma_inferred_functions(m: ModuleView, k: nat, functions: Seq<VarView>, j: int)
    requires
        0 <= j < k <= m.functions.len(),
    ensures
        inferred_functions(m, k, functions).0.len() == k,
        inferred_functions(m, k, functions).0[j] == inferred_function(m.functions[j], functions).0,
        inferred_functions(m, k, functions).1.len() == 0 ==> inferred_function(
            m.functions[j],
            functions,
        ).1.len() == 0,
    decreases k,
{
    lemma_inferred_functions_len(m, (k - 1) as nat, functions);
    if j < k - 1 {
        lemma_inferred_functions(m, (k - 1) as nat, functions, j);
    }
}

proof fn lemma_inferred_functions_len(m: ModuleView, k: nat, functions: Seq<VarView>)
    requires
        k <= m.functions.len(),
    ensures
        inferred_functions(m, k, functions).0.len() == k,
    decreases k,
{
    if k > 0 {
        lemma_inferred_functions_len(m, (k - 1) as nat, functions);
    }
}

/// Inference keeps the number of modules of a program, and reports what the
/// inference of each of them reports.
pub proof fn lemma_inferred_modules(p: Seq<ModuleView>, k: nat, functions: Seq<VarView>, i: int)
    requires
        0 <= i < k <= p.len(),
    ensures
        inferred_modules(p, k, functions).0.len() == k,
        inferred_modules(p, k, functions).0[i].functions == inferred_functions(
            p[i],
            p[i].functions.len(),
            functions,
        ).0,
        inferred_modules(p, k, functions).1.len() == 0 ==> inferred_functions(
            p[i],
            p[i].functions.len(),
            functions,
        ).1.len() == 0,
    decreases k,
{
    lemma_inferred_modules_len(p, (k - 1) as nat, functions);
    if i < k - 1 {
        lemma_inferred_modules(p, (k - 1) as nat, functions, i);
    }
}

proof fn lemma_inferred_modules_len(p: Seq<ModuleView>, k: nat, functions: Seq<VarView>)
    requires
        k <= p.len(),
    ensures
        inferred_modules(p, k, functions).0.len() == k,
    decreases k,
{
    if k > 0 {
        lemma_inferred_modules_len(p, (k - 1) as nat, functions);
    }
}

/// After a successful inference of a program, each function that declared
/// no result type and has a body has the type that was found for its last
/// expression.
pub proof fn lemma_infer_promotes(p: Seq<ModuleView>, i: int, j: int)
    requires
        inferred_program(p).1.len() == 0,
        0 <= i < p.len(),
        0 <= j < p[i].functions.len(),
        p[i].functions[j].output_type == Type::Bottom,
        p[i].functions[j].body.len() > 0,
    ensures
        ({
            let table = function_table(p, p.len());
            let f = mangled_program(p)[i].functions[j];
            let g = inferred_program(p).0[i].functions[j];
            &&& g == inferred_function(f, table).0
            &&& inferred(progress(f.body, f.body.len(), f.params, table).body.last()).1 == Some(
                g.output_type,
            )
        }),
{
    let table = function_table(p, p.len());
    let q = mangled_program(p);
    lemma_inferred_modules(q, p.len(), table, i);
    lemma_inferred_functions(q[i], q[i].functions.len(), table, j);
    let f = q[i].functions[j];
    lemma_result_type_inferred(f, table);
}

} // verus!
