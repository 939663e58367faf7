//! What every expression that the compiler accepts is known to satisfy:
//! each identifier is bound where it is used, each `break` stands in a
//! `loop`, each call names a declared function, and no `let` binds a name
//! twice.

use vstd::prelude::*;
use crate::codegen::label_name;
use crate::layout::{bound_before, compile_args, compile_bindings, compile_block, compile_expr};
use crate::text::{int_text, nat_text};
use crate::types::{ExprView, Op2};

verus! {

/// The names in force behind the first `n` bindings of a `let`: those in
/// force before it, and those that the bindings bind.
pub open spec fn bound_after(
    bs: Seq<(Seq<char>, ExprView)>,
    n: int,
    bound: Set<Seq<char>>,
) -> Set<Seq<char>>
    decreases n,
{
    if n <= 0 || n > bs.len() {
        bound
    } else {
        bound_after(bs, n - 1, bound).insert(bs[n - 1].0)
    }
}

/// Whether no two of the first `n` bindings bind the same name.
pub open spec fn unique_names(bs: Seq<(Seq<char>, ExprView)>, n: int) -> bool {
    forall|j: int, k: int| 0 <= j < k < n && k < bs.len() ==> bs[j].0 != bs[k].0
}

/// Whether the expression `e` is well formed where the names in `bound` are
/// in force, inside a loop or not, in a program that declares the functions
/// `funcs`: every identifier that it reads or assigns is `input` (read
/// only) or bound there; every `break` stands in a `loop`; every call names
/// a declared function; and no `let` binds a name twice.
pub open spec fn well_formed(
    e: ExprView,
    bound: Set<Seq<char>>,
    in_loop: bool,
    funcs: Set<Seq<char>>,
) -> bool
    decreases e, 0nat,
{
    match e {
        ExprView::Number(_) => true,
        ExprView::Boolean(_) => true,
        ExprView::Id(x) => x == "input"@ || bound.contains(x),
        ExprView::Let(bs, body) => {
            &&& unique_names(bs, bs.len() as int)
            &&& well_formed_bindings(bs, bs.len() as int, bound, in_loop, funcs)
            &&& well_formed(*body, bound_after(bs, bs.len() as int, bound), in_loop, funcs)
        },
        ExprView::UnOp(_, a) => well_formed(*a, bound, in_loop, funcs),
        ExprView::BinOp(_, a, b) => well_formed(*a, bound, in_loop, funcs) && well_formed(
            *b,
            bound,
            in_loop,
            funcs,
        ),
        ExprView::If(c, t, f) => well_formed(*c, bound, in_loop, funcs) && well_formed(
            *t,
            bound,
            in_loop,
            funcs,
        ) && well_formed(*f, bound, in_loop, funcs),
        ExprView::Loop(a) => well_formed(*a, bound, true, funcs),
        ExprView::Break(a) => in_loop && well_formed(*a, bound, in_loop, funcs),
        ExprView::SetVar(x, a) => bound.contains(x) && well_formed(*a, bound, in_loop, funcs),
        ExprView::Block(es) => well_formed_all(es, es.len() as int, bound, in_loop, funcs),
        ExprView::Call(f, args) => funcs.contains(f) && well_formed_all(
            args,
            args.len() as int,
            bound,
            in_loop,
            funcs,
        ),
    }
}

/// Whether the first `n` expressions of a list are well formed.
pub open spec fn well_formed_all(
    es: Seq<ExprView>,
    n: int,
    bound: Set<Seq<char>>,
    in_loop: bool,
    funcs: Set<Seq<char>>,
) -> bool
    decreases es, n,
{
    if n <= 0 || n > es.len() {
        true
    } else {
        well_formed_all(es, n - 1, bound, in_loop, funcs) && well_formed(
            es[n - 1],
            bound,
            in_loop,
            funcs,
        )
    }
}

/// Whether the right-hand sides of the first `n` bindings of a `let` are
/// well formed, each where the earlier bindings are in force.
pub open spec fn well_formed_bindings(
    bs: Seq<(Seq<char>, ExprView)>,
    n: int,
    bound: Set<Seq<char>>,
    in_loop: bool,
    funcs: Set<Seq<char>>,
) -> bool
    decreases bs, n,
{
    if n <= 0 || n > bs.len() {
        true
    } else {
        well_formed_bindings(bs, n - 1, bound, in_loop, funcs) && well_formed(
            bs[n - 1].1,
            bound_after(bs, n - 1, bound),
            in_loop,
            funcs,
        )
    }
}

/// A label is not the empty text.
pub proof fn lemma_label_not_empty(prefix: Seq<char>, n: int)
    ensures
        label_name(prefix, n).len() > 0,
{
    reveal_with_fuel(nat_text, 1);
    assert(int_text(n).len() > 0);
}

/// An expression that the compiler accepts is well formed: where the
/// environment knows the names in force, and the break target is empty
/// exactly outside every loop.
pub proof fn accepted_is_well_formed(
    e: ExprView,
    si: int,
    env: Map<Seq<char>, i64>,
    l: int,
    brk: Seq<char>,
    funcs: Set<Seq<char>>,
)
    requires
        compile_expr(e, si, env, l, brk, funcs) is Ok,
    ensures
        well_formed(e, env.dom(), brk.len() > 0, funcs),
    decreases e, 1nat,
{
    match e {
        ExprView::Let(bs, body) => {
            let n = bs.len() as int;
            accepted_bindings(bs, n, si, env, l, brk, funcs);
            let (_, l1, inner) = compile_bindings(bs, n, si, env, l, brk, funcs)->Ok_0;
            accepted_is_well_formed(*body, si + n + 1, inner, l1, brk, funcs);
        },
        ExprView::UnOp(_, a) => {
            accepted_is_well_formed(*a, si, env, l, brk, funcs);
        },
        ExprView::BinOp(_, _, _) => {
            accepted_operands(e, si, env, l, brk, funcs);
        },
        ExprView::If(c, t, f) => {
            accepted_is_well_formed(*c, si, env, l, brk, funcs);
            let l1 = compile_expr(*c, si, env, l, brk, funcs)->Ok_0.1;
            accepted_is_well_formed(*t, si, env, l1 + 2, brk, funcs);
            let l2 = compile_expr(*t, si, env, l1 + 2, brk, funcs)->Ok_0.1;
            accepted_is_well_formed(*f, si + 1, env, l2, brk, funcs);
        },
        ExprView::Loop(a) => {
            lemma_label_not_empty("loopend"@, l + 1);
            accepted_is_well_formed(*a, si, env, l + 2, label_name("loopend"@, l + 1), funcs);
        },
        ExprView::Break(a) => {
            accepted_is_well_formed(*a, si, env, l, brk, funcs);
        },
        ExprView::SetVar(_, a) => {
            accepted_is_well_formed(*a, si, env, l, brk, funcs);
        },
        ExprView::Block(es) => {
            accepted_block(es, es.len() as int, si, env, l, brk, funcs);
        },
        ExprView::Call(_, args) => {
            accepted_args(args, args.len() as int, si, env, l, brk, funcs);
        },
        _ => {},
    }
}

/// The operands of a binary operator that the compiler accepts are well
/// formed.
pub proof fn accepted_operands(
    e: ExprView,
    si: int,
    env: Map<Seq<char>, i64>,
    l: int,
    brk: Seq<char>,
    funcs: Set<Seq<char>>,
)
    requires
        e is BinOp,
        compile_expr(e, si, env, l, brk, funcs) is Ok,
    ensures
        well_formed(e, env.dom(), brk.len() > 0, funcs),
    decreases e, 0nat,
{
    let a = *e->BinOp_1;
    let b = *e->BinOp_2;
    match e->BinOp_0 {
        Op2::Minus => {
            accepted_is_well_formed(b, si, env, l, brk, funcs);
            let l1 = compile_expr(b, si, env, l, brk, funcs)->Ok_0.1;
            accepted_is_well_formed(a, si + 1, env, l1, brk, funcs);
        },
        Op2::Equal => {
            accepted_is_well_formed(b, si, env, l, brk, funcs);
            let l1 = compile_expr(b, si, env, l, brk, funcs)->Ok_0.1;
            accepted_is_well_formed(a, si + 1, env, l1, brk, funcs);
        },
        Op2::Times => {
            accepted_is_well_formed(b, si + 1, env, l, brk, funcs);
            let l1 = compile_expr(b, si + 1, env, l, brk, funcs)->Ok_0.1;
            accepted_is_well_formed(a, si, env, l1, brk, funcs);
        },
        _ => {
            accepted_is_well_formed(a, si, env, l, brk, funcs);
            let l1 = compile_expr(a, si, env, l, brk, funcs)->Ok_0.1;
            accepted_is_well_formed(b, si + 1, env, l1, brk, funcs);
        },
    }
}

/// The first `n` expressions of a block that the compiler accepts are well
/// formed.
pub proof fn accepted_block(
    es: Seq<ExprView>,
    n: int,
    si: int,
    env: Map<Seq<char>, i64>,
    l: int,
    brk: Seq<char>,
    funcs: Set<Seq<char>>,
)
    requires
        0 <= n <= es.len(),
        compile_block(es, n, si, env, l, brk, funcs) is Ok,
    ensures
        well_formed_all(es, n, env.dom(), brk.len() > 0, funcs),
    decreases es, n,
{
    if n > 0 {
        accepted_block(es, n - 1, si, env, l, brk, funcs);
        let l1 = compile_block(es, n - 1, si, env, l, brk, funcs)->Ok_0.1;
        accepted_is_well_formed(es[n - 1], si, env, l1, brk, funcs);
    }
}

/// The first `n` arguments of a call that the compiler accepts are well
/// formed.
pub proof fn accepted_args(
    args: Seq<ExprView>,
    n: int,
    si: int,
    env: Map<Seq<char>, i64>,
    l: int,
    brk: Seq<char>,
    funcs: Set<Seq<char>>,
)
    requires
        0 <= n <= args.len(),
        compile_args(args, n, si, env, l, brk, funcs) is Ok,
    ensures
        well_formed_all(args, n, env.dom(), brk.len() > 0, funcs),
    decreases args, n,
{
    if n > 0 {
        accepted_args(args, n - 1, si, env, l, brk, funcs);
        let l1 = compile_args(args, n - 1, si, env, l, brk, funcs)->Ok_0.1;
        accepted_is_well_formed(args[n - 1], si + n - 1, env, l1, brk, funcs);
    }
}

/// The first `n` bindings of a `let` that the compiler accepts are well
/// formed and bind `n` different names, and the environment behind them
/// knows the names in force there.
pub proof fn accepted_bindings(
    bs: Seq<(Seq<char>, ExprView)>,
    n: int,
    si: int,
    env: Map<Seq<char>, i64>,
    l: int,
    brk: Seq<char>,
    funcs: Set<Seq<char>>,
)
    requires
        0 <= n <= bs.len(),
        compile_bindings(bs, n, si, env, l, brk, funcs) is Ok,
    ensures
        well_formed_bindings(bs, n, env.dom(), brk.len() > 0, funcs),
        unique_names(bs, n),
        compile_bindings(bs, n, si, env, l, brk, funcs)->Ok_0.2.dom() == bound_after(
            bs,
            n,
            env.dom(),
        ),
    decreases bs, n,
{
    if n > 0 {
        accepted_bindings(bs, n - 1, si, env, l, brk, funcs);
        let (_, l1, env1) = compile_bindings(bs, n - 1, si, env, l, brk, funcs)->Ok_0;
        accepted_is_well_formed(bs[n - 1].1, si + n - 1, env1, l1, brk, funcs);
        assert(!bound_before(bs, n - 1, bs[n - 1].0));
        assert forall|j: int, k: int| 0 <= j < k < n && k < bs.len() implies bs[j].0
            != bs[k].0 by {
            if k == n - 1 {
                assert(bs[j].0 == (#[trigger] bs[j]).0);
            }
        }
        let env_n = compile_bindings(bs, n, si, env, l, brk, funcs)->Ok_0.2;
        assert(env_n.dom() =~= bound_after(bs, n, env.dom()));
    } else {
        assert(compile_bindings(bs, n, si, env, l, brk, funcs)->Ok_0.2.dom() =~= bound_after(
            bs,
            n,
            env.dom(),
        ));
    }
}

} // verus!
