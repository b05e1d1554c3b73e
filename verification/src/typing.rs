//! What a successful inference leaves behind: every variable has its type.
use crate::ast::{type_of, ExprView, FunctionView, VarView};
use crate::ast::ModuleView;
use crate::inference::{
    function_table, inferred, inferred_each, inferred_function, inferred_program,
    lemma_inferred_functions, lemma_inferred_modules, progress, settled, tabled, tabled_each,
};
use crate::mangler::{mangled_program, renamed, RenameView};
use crate::types::Type;
use vstd::prelude::*;

verus! {

/// Whether an expression holds no conditional.
pub open spec fn flat(e: ExprView) -> bool
    decreases e,
{
    match e {
        ExprView::Var(_) => true,
        ExprView::Literal(_) => true,
        ExprView::BinaryExpr(lhs, _, rhs) => flat(*lhs) && flat(*rhs),
        ExprView::Tensor(items) => forall|i: int| 0 <= i < items.len() ==> flat(#[trigger] items[i]),
        ExprView::FnCall(_, args) => forall|i: int| 0 <= i < args.len() ==> flat(#[trigger] args[i]),
        ExprView::Let(_, val) => flat(*val),
        ExprView::Assign(_, val) => flat(*val),
        ExprView::Conditional(_, _, _) => false,
    }
}

/// Whether an expression is as the parser leaves it, and holds no
/// conditional: no call in it has the type of its result yet.
pub open spec fn fresh(e: ExprView) -> bool
    decreases e,
{
    match e {
        ExprView::Var(_) => true,
        ExprView::Literal(_) => true,
        ExprView::BinaryExpr(lhs, _, rhs) => fresh(*lhs) && fresh(*rhs),
        ExprView::Tensor(items) => forall|i: int| 0 <= i < items.len() ==> fresh(#[trigger] items[i]),
        ExprView::FnCall(f, args) => f.output_type == Type::Bottom && forall|i: int|
            0 <= i < args.len() ==> fresh(#[trigger] args[i]),
        ExprView::Let(_, val) => fresh(*val),
        ExprView::Assign(_, val) => fresh(*val),
        ExprView::Conditional(_, _, _) => false,
    }
}

/// Whether every variable of an expression has a type. The variable that a
/// `let` defines may be without one only where its value has none to give:
/// where the type of the value is `Bottom`, as that of an empty tensor is.
pub open spec fn all_typed(e: ExprView) -> bool
    decreases e,
{
    match e {
        ExprView::Var(v) => v.is_typed(),
        ExprView::Literal(_) => true,
        ExprView::BinaryExpr(lhs, _, rhs) => all_typed(*lhs) && all_typed(*rhs),
        ExprView::Tensor(items) => forall|i: int|
            0 <= i < items.len() ==> all_typed(#[trigger] items[i]),
        ExprView::FnCall(_, args) => forall|i: int| 0 <= i < args.len() ==> all_typed(#[trigger] args[i]),
        ExprView::Let(var, val) => all_typed(*val) && (var.is_typed() || type_of(*val)
            == Type::Bottom),
        ExprView::Assign(var, val) => all_typed(*val) && (var.is_typed() || type_of(*val)
            == Type::Bottom),
        ExprView::Conditional(cond, yes, no) => all_typed(*cond) && (forall|i: int|
            0 <= i < yes.len() ==> all_typed(#[trigger] yes[i])) && (forall|i: int|
            0 <= i < no.len() ==> all_typed(#[trigger] no[i])),
    }
}

/// An expression without a call that has a type is one without a
/// conditional.
pub proof fn lemma_fresh_is_flat(e: ExprView)
    requires
        fresh(e),
    ensures
        flat(e),
    decreases e,
{
    match e {
        ExprView::BinaryExpr(lhs, _, rhs) => {
            lemma_fresh_is_flat(*lhs);
            lemma_fresh_is_flat(*rhs);
        },
        ExprView::Tensor(items) => {
            assert forall|i: int| 0 <= i < items.len() implies flat(#[trigger] items[i]) by {
                lemma_fresh_is_flat(items[i]);
            }
        },
        ExprView::FnCall(_, args) => {
            assert forall|i: int| 0 <= i < args.len() implies flat(#[trigger] args[i]) by {
                lemma_fresh_is_flat(args[i]);
            }
        },
        ExprView::Let(_, val) => {
            lemma_fresh_is_flat(*val);
        },
        ExprView::Assign(_, val) => {
            lemma_fresh_is_flat(*val);
        },
        _ => {},
    }
}

/// Inference keeps the length of a list.
pub proof fn lemma_inferred_each_len(items: Seq<ExprView>, k: nat)
    ensures
        inferred_each(items, k).0.len() == items.len(),
    decreases k,
{
    if k > 0 && k <= items.len() {
        lemma_inferred_each_len(items, (k - 1) as nat);
    }
}

/// The tables keep the length of a list.
pub proof fn lemma_tabled_each_len(
    items: Seq<ExprView>,
    k: nat,
    params: Seq<VarView>,
    locals: Seq<VarView>,
    functions: Seq<VarView>,
)
    ensures
        tabled_each(items, k, params, locals, functions).0.len() == items.len(),
    decreases k,
{
    if k > 0 && k <= items.len() {
        lemma_tabled_each_len(items, (k - 1) as nat, params, locals, functions);
    }
}

/// What inference leaves of item `i` of a list: the item as inference
/// leaves it, or the item itself if inference did not come to it. Where a
/// type was found for each item, each was inferred.
pub proof fn lemma_inferred_each_at(items: Seq<ExprView>, k: nat, i: int)
    requires
        k <= items.len(),
        0 <= i < items.len(),
    ensures
        inferred_each(items, k).0.len() == items.len(),
        i >= k ==> inferred_each(items, k).0[i] == items[i],
        inferred_each(items, k).0[i] == items[i] || inferred_each(items, k).0[i] == inferred(
            items[i],
        ).0,
        inferred_each(items, k).1 matches Some(types) ==> types.len() == k && (i < k ==> inferred_each(
            items,
            k,
        ).0[i] == inferred(items[i]).0 && inferred(items[i]).1 == Some(types[i])),
    decreases k,
{
    if k > 0 {
        lemma_inferred_each_at(items, (k - 1) as nat, i);
    }
}

/// What the tables leave of item `i` of a list: the item as they leave it,
/// or the item itself if the work did not come to it. Where nothing is left
/// to say, each item was typed and left nothing to say.
pub proof fn lemma_tabled_each_at(
    items: Seq<ExprView>,
    k: nat,
    i: int,
    params: Seq<VarView>,
    locals: Seq<VarView>,
    functions: Seq<VarView>,
)
    requires
        k <= items.len(),
        0 <= i < items.len(),
    ensures
        tabled_each(items, k, params, locals, functions).0.len() == items.len(),
        i >= k ==> tabled_each(items, k, params, locals, functions).0[i] == items[i],
        tabled_each(items, k, params, locals, functions).0[i] == items[i] || tabled_each(
            items,
            k,
            params,
            locals,
            functions,
        ).0[i] == tabled(items[i], params, locals, functions).0,
        tabled_each(items, k, params, locals, functions).1 is None && i < k ==> tabled_each(
            items,
            k,
            params,
            locals,
            functions,
        ).0[i] == tabled(items[i], params, locals, functions).0 && tabled(
            items[i],
            params,
            locals,
            functions,
        ).1 is None,
    decreases k,
{
    if k > 0 {
        lemma_tabled_each_at(items, (k - 1) as nat, i, params, locals, functions);
    }
}

/// Inference puts no conditional into an expression.
pub proof fn lemma_inferred_flat(e: ExprView)
    requires
        flat(e),
    ensures
        flat(inferred(e).0),
    decreases e,
{
    match e {
        ExprView::BinaryExpr(lhs, _, rhs) => {
            lemma_inferred_flat(*lhs);
            lemma_inferred_flat(*rhs);
        },
        ExprView::Tensor(items) => {
            let all = inferred_each(items, items.len());
            lemma_inferred_each_len(items, items.len());
            assert forall|i: int| 0 <= i < all.0.len() implies flat(#[trigger] all.0[i]) by {
                lemma_inferred_each_at(items, items.len(), i);
                lemma_inferred_flat(items[i]);
            }
        },
        ExprView::FnCall(f, args) => {
            let all = inferred_each(args, args.len());
            lemma_inferred_each_len(args, args.len());
            assert forall|i: int| 0 <= i < all.0.len() implies flat(#[trigger] all.0[i]) by {
                lemma_inferred_each_at(args, args.len(), i);
                lemma_inferred_flat(args[i]);
            }
        },
        ExprView::Let(_, val) => {
            lemma_inferred_flat(*val);
        },
        ExprView::Assign(_, val) => {
            lemma_inferred_flat(*val);
        },
        _ => {},
    }
}

/// The tables put no conditional into an expression.
pub proof fn lemma_tabled_flat(e: ExprView, params: Seq<VarView>, locals: Seq<VarView>, functions: Seq<VarView>)
    requires
        flat(e),
    ensures
        flat(tabled(e, params, locals, functions).0),
    decreases e,
{
    match e {
        ExprView::BinaryExpr(lhs, _, rhs) => {
            lemma_tabled_flat(*lhs, params, locals, functions);
            lemma_tabled_flat(*rhs, params, locals, functions);
        },
        ExprView::Tensor(items) => {
            let all = tabled_each(items, items.len(), params, locals, functions);
            lemma_tabled_each_len(items, items.len(), params, locals, functions);
            assert forall|i: int| 0 <= i < all.0.len() implies flat(#[trigger] all.0[i]) by {
                lemma_tabled_each_at(items, items.len(), i, params, locals, functions);
                lemma_tabled_flat(items[i], params, locals, functions);
            }
        },
        ExprView::FnCall(f, args) => {
            let all = tabled_each(args, args.len(), params, locals, functions);
            lemma_tabled_each_len(args, args.len(), params, locals, functions);
            assert forall|i: int| 0 <= i < all.0.len() implies flat(#[trigger] all.0[i]) by {
                lemma_tabled_each_at(args, args.len(), i, params, locals, functions);
                lemma_tabled_flat(args[i], params, locals, functions);
            }
        },
        ExprView::Let(_, val) => {
            lemma_tabled_flat(*val, params, locals, functions);
        },
        ExprView::Assign(_, val) => {
            lemma_tabled_flat(*val, params, locals, functions);
        },
        _ => {},
    }
}

/// The type that inference finds for an expression is the type that the
/// expression shows afterwards.
pub proof fn lemma_inferred_type(e: ExprView)
    requires
        flat(e),
        inferred(e).1 is Some,
    ensures
        type_of(inferred(e).0) == inferred(e).1->0,
    decreases e,
{
    match e {
        ExprView::BinaryExpr(lhs, _, rhs) => {
            lemma_inferred_type(*lhs);
            lemma_inferred_type(*rhs);
        },
        ExprView::Tensor(items) => {
            if items.len() > 0 {
                lemma_inferred_each_at(items, items.len(), 0);
                lemma_inferred_type(items[0]);
            }
        },
        ExprView::Let(_, val) => {
            lemma_inferred_type(*val);
        },
        ExprView::Assign(_, val) => {
            lemma_inferred_type(*val);
        },
        _ => {},
    }
}

/// Where inference finds a type for an expression as the parser leaves it,
/// every variable of the expression has a type.
pub proof fn lemma_inferred_typed(e: ExprView)
    requires
        fresh(e),
        inferred(e).1 is Some,
    ensures
        all_typed(inferred(e).0),
    decreases e,
{
    match e {
        ExprView::BinaryExpr(lhs, _, rhs) => {
            lemma_inferred_typed(*lhs);
            lemma_inferred_typed(*rhs);
        },
        ExprView::Tensor(items) => {
            let all = inferred_each(items, items.len());
            lemma_inferred_each_len(items, items.len());
            assert forall|i: int| 0 <= i < all.0.len() implies all_typed(#[trigger] all.0[i]) by {
                lemma_inferred_each_at(items, items.len(), i);
                lemma_inferred_typed(items[i]);
            }
        },
        ExprView::FnCall(f, args) => {
            if args.len() > 0 {
                let all = inferred_each(args, args.len());
                lemma_inferred_each_len(args, args.len());
                assert forall|i: int| 0 <= i < all.0.len() implies all_typed(#[trigger] all.0[i]) by {
                    lemma_inferred_each_at(args, args.len(), i);
                    lemma_inferred_typed(args[i]);
                }
            }
        },
        ExprView::Let(_, val) => {
            lemma_fresh_is_flat(*val);
            lemma_inferred_typed(*val);
            lemma_inferred_type(*val);
        },
        ExprView::Assign(_, val) => {
            lemma_fresh_is_flat(*val);
            lemma_inferred_typed(*val);
            lemma_inferred_type(*val);
        },
        _ => {},
    }
}

/// Where the tables leave nothing to say of an expression, every variable
/// of the expression has a type.
pub proof fn lemma_tabled_typed(e: ExprView, params: Seq<VarView>, locals: Seq<VarView>, functions: Seq<VarView>)
    requires
        flat(e),
        tabled(e, params, locals, functions).1 is None,
    ensures
        all_typed(tabled(e, params, locals, functions).0),
    decreases e,
{
    match e {
        ExprView::BinaryExpr(lhs, _, rhs) => {
            lemma_tabled_typed(*lhs, params, locals, functions);
            lemma_tabled_typed(*rhs, params, locals, functions);
        },
        ExprView::Tensor(items) => {
            let all = tabled_each(items, items.len(), params, locals, functions);
            lemma_tabled_each_len(items, items.len(), params, locals, functions);
            assert forall|i: int| 0 <= i < all.0.len() implies all_typed(#[trigger] all.0[i]) by {
                lemma_tabled_each_at(items, items.len(), i, params, locals, functions);
                lemma_tabled_typed(items[i], params, locals, functions);
            }
        },
        ExprView::FnCall(f, args) => {
            let all = tabled_each(args, args.len(), params, locals, functions);
            lemma_tabled_each_len(args, args.len(), params, locals, functions);
            assert forall|i: int| 0 <= i < all.0.len() implies all_typed(#[trigger] all.0[i]) by {
                lemma_tabled_each_at(args, args.len(), i, params, locals, functions);
                lemma_tabled_typed(args[i], params, locals, functions);
            }
        },
        ExprView::Let(_, val) => {
            lemma_tabled_typed(*val, params, locals, functions);
        },
        ExprView::Assign(_, val) => {
            lemma_tabled_typed(*val, params, locals, functions);
        },
        _ => {},
    }
}

/// Inference takes no type away: an expression whose variables all have
/// their types keeps them, and shows the type it showed before.
pub proof fn lemma_inferred_keeps(e: ExprView)
    requires
        flat(e),
        all_typed(e),
    ensures
        all_typed(inferred(e).0),
        type_of(inferred(e).0) == type_of(e),
    decreases e,
{
    match e {
        ExprView::BinaryExpr(lhs, _, rhs) => {
            lemma_inferred_keeps(*lhs);
            lemma_inferred_keeps(*rhs);
        },
        ExprView::Tensor(items) => {
            let all = inferred_each(items, items.len());
            lemma_inferred_each_len(items, items.len());
            assert forall|i: int| 0 <= i < all.0.len() implies all_typed(#[trigger] all.0[i])
                && type_of(all.0[i]) == type_of(items[i]) by {
                lemma_inferred_each_at(items, items.len(), i);
                lemma_inferred_keeps(items[i]);
            }
            if items.len() > 0 {
                lemma_inferred_each_at(items, items.len(), 0);
            }
        },
        ExprView::FnCall(f, args) => {
            let all = inferred_each(args, args.len());
            lemma_inferred_each_len(args, args.len());
            assert forall|i: int| 0 <= i < all.0.len() implies all_typed(#[trigger] all.0[i]) by {
                lemma_inferred_each_at(args, args.len(), i);
                lemma_inferred_keeps(args[i]);
            }
        },
        ExprView::Let(_, val) => {
            lemma_inferred_keeps(*val);
            if inferred(*val).1 is Some {
                lemma_inferred_type(*val);
            }
        },
        ExprView::Assign(_, val) => {
            lemma_inferred_keeps(*val);
            if inferred(*val).1 is Some {
                lemma_inferred_type(*val);
            }
        },
        _ => {},
    }
}

/// An instruction that is typed without a report has a type for each of
/// its variables.
pub proof fn lemma_settled_typed(e: ExprView, params: Seq<VarView>, locals: Seq<VarView>, functions: Seq<VarView>)
    requires
        fresh(e),
        settled(e, params, locals, functions).2 is None,
    ensures
        flat(settled(e, params, locals, functions).0),
        all_typed(settled(e, params, locals, functions).0),
{
    lemma_fresh_is_flat(e);
    lemma_inferred_flat(e);
    let first = inferred(e);
    if first.1 is Some && first.1->0 != Type::Bottom {
        lemma_inferred_typed(e);
    } else {
        lemma_tabled_flat(first.0, params, locals, functions);
        lemma_tabled_typed(first.0, params, locals, functions);
    }
}

/// What the work on a body has made of instruction `i` after `k`
/// instructions: the instruction as its typing left it, with no report made
/// if none was made at all.
pub proof fn lemma_progress_at(body: Seq<ExprView>, k: nat, i: int, params: Seq<VarView>, functions: Seq<VarView>)
    requires
        k <= body.len(),
        0 <= i < body.len(),
    ensures
        progress(body, k, params, functions).body.len() == body.len(),
        i >= k ==> progress(body, k, params, functions).body[i] == body[i],
        i < k ==> progress(body, k, params, functions).body[i] == settled(
            body[i],
            params,
            progress(body, i as nat, params, functions).locals,
            functions,
        ).0,
        i < k && progress(body, k, params, functions).reports.len() == 0 ==> settled(
            body[i],
            params,
            progress(body, i as nat, params, functions).locals,
            functions,
        ).2 is None,
    decreases k,
{
    if k > 0 {
        lemma_progress_at(body, (k - 1) as nat, i, params, functions);
    }
}

/// After a successful inference of a function whose body holds no
/// conditional and is as the parser left it, every variable of the body has
/// a type; the variable of a `let` may be without one only where the type
/// of its value is `Bottom`.
pub proof fn lemma_inferred_function_typed(f: FunctionView, functions: Seq<VarView>, i: int)
    requires
        forall|k: int| 0 <= k < f.body.len() ==> fresh(#[trigger] f.body[k]),
        inferred_function(f, functions).1.len() == 0,
        0 <= i < f.body.len(),
    ensures
        inferred_function(f, functions).0.body.len() == f.body.len(),
        all_typed(inferred_function(f, functions).0.body[i]),
{
    let n = f.body.len();
    let p = progress(f.body, n, f.params, functions);
    lemma_progress_at(f.body, n, i, f.params, functions);
    let locals = progress(f.body, i as nat, f.params, functions).locals;
    lemma_settled_typed(f.body[i], f.params, locals, functions);
    if i == n - 1 {
        lemma_inferred_keeps(p.body[i]);
    }
}

/// Renaming the calls of an expression leaves it as the parser left it.
pub proof fn lemma_renamed_fresh(e: ExprView, rule: RenameView)
    requires
        fresh(e),
    ensures
        fresh(renamed(e, rule)),
    decreases e,
{
    match e {
        ExprView::BinaryExpr(lhs, _, rhs) => {
            lemma_renamed_fresh(*lhs, rule);
            lemma_renamed_fresh(*rhs, rule);
        },
        ExprView::Tensor(items) => {
            let all = renamed(e, rule)->Tensor_0;
            assert forall|i: int| 0 <= i < all.len() implies fresh(#[trigger] all[i]) by {
                lemma_renamed_fresh(items[i], rule);
            }
        },
        ExprView::FnCall(_, args) => {
            let all = renamed(e, rule)->FnCall_1;
            assert forall|i: int| 0 <= i < all.len() implies fresh(#[trigger] all[i]) by {
                lemma_renamed_fresh(args[i], rule);
            }
        },
        ExprView::Let(_, val) => {
            lemma_renamed_fresh(*val, rule);
        },
        ExprView::Assign(_, val) => {
            lemma_renamed_fresh(*val, rule);
        },
        _ => {},
    }
}

/// Whether every instruction of a program is as the parser leaves it, and
/// holds no conditional.
pub open spec fn fresh_program(p: Seq<ModuleView>) -> bool {
    forall|i: int, j: int, k: int|
        0 <= i < p.len() && 0 <= j < p[i].functions.len() && 0 <= k
            < p[i].functions[j].body.len() ==> fresh(#[trigger] p[i].functions[j].body[k])
}

/// After a successful inference of a program whose instructions hold no
/// conditional and are as the parser left them, every variable in the body
/// of every function has a type; the variable of a `let` may be without one
/// only where the type of its value is `Bottom`.
pub proof fn lemma_infer_types_all(p: Seq<ModuleView>, i: int, j: int, k: int)
    requires
        fresh_program(p),
        inferred_program(p).1.len() == 0,
        0 <= i < p.len(),
        0 <= j < p[i].functions.len(),
        0 <= k < p[i].functions[j].body.len(),
    ensures
        inferred_program(p).0.len() == p.len(),
        inferred_program(p).0[i].functions.len() == p[i].functions.len(),
        inferred_program(p).0[i].functions[j].body.len() == p[i].functions[j].body.len(),
        all_typed(inferred_program(p).0[i].functions[j].body[k]),
{
    let table = function_table(p, p.len());
    let q = mangled_program(p);
    lemma_inferred_modules(q, p.len(), table, i);
    lemma_inferred_functions(q[i], q[i].functions.len(), table, j);
    let f = q[i].functions[j];
    assert forall|n: int| 0 <= n < f.body.len() implies fresh(#[trigger] f.body[n]) by {
        assert(fresh(p[i].functions[j].body[n]));
        lemma_renamed_fresh(p[i].functions[j].body[n], crate::mangler::peers_of(p[i]));
    }
    lemma_inferred_function_typed(f, table, k);
}

} // verus!
