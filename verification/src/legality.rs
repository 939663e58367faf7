//! What every expression that the front end accepts is known to satisfy:
//! its numbers are numbers of the language, its blocks and bindings are not
//! empty, it binds no reserved word and no name twice in one `let`, its
//! calls name declared functions with the declared number of arguments, and
//! inside a function it does not read `input`.

use vstd::prelude::*;
use crate::scoping::unique_names;
use crate::semantics::in_range;
use crate::layout::{def_body, def_name, def_params};
use crate::parser::lemma_leading_defs_bounds;
use crate::syntax::{
    arities_spec, binds, body_of, is_reserved, leading_defs, parse_bind_spec, parse_bindings_spec,
    parse_definition_spec, parse_defs_spec, parse_expr_spec, parse_params_spec, parse_program_spec,
    parse_tail_spec, signature_of, TreeView,
};
use crate::types::{DefinitionView, ExprView};

verus! {

/// Whether the expression `e` is legal, inside a function or not, in a
/// program whose functions have the arities `defs`.
pub open spec fn legal_expr(e: ExprView, in_function: bool, defs: Map<Seq<char>, u64>) -> bool
    decreases e, 0nat,
{
    match e {
        ExprView::Number(n) => in_range(n),
        ExprView::Boolean(_) => true,
        ExprView::Id(x) => !(in_function && x == "input"@),
        ExprView::Let(bs, body) => {
            &&& bs.len() > 0
            &&& unique_names(bs, bs.len() as int)
            &&& legal_bindings(bs, bs.len() as int, in_function, defs)
            &&& legal_expr(*body, in_function, defs)
        },
        ExprView::UnOp(_, a) => legal_expr(*a, in_function, defs),
        ExprView::BinOp(_, a, b) => legal_expr(*a, in_function, defs) && legal_expr(
            *b,
            in_function,
            defs,
        ),
        ExprView::If(c, t, f) => legal_expr(*c, in_function, defs) && legal_expr(
            *t,
            in_function,
            defs,
        ) && legal_expr(*f, in_function, defs),
        ExprView::Loop(a) => legal_expr(*a, in_function, defs),
        ExprView::Break(a) => legal_expr(*a, in_function, defs),
        ExprView::SetVar(_, a) => legal_expr(*a, in_function, defs),
        ExprView::Block(es) => es.len() > 0 && legal_all(es, es.len() as int, in_function, defs),
        ExprView::Call(f, args) => {
            &&& !is_reserved(f)
            &&& defs.contains_key(f)
            &&& args.len() == defs[f]
            &&& legal_all(args, args.len() as int, in_function, defs)
        },
    }
}

/// Whether the first `n` expressions of a list are legal.
pub open spec fn legal_all(
    es: Seq<ExprView>,
    n: int,
    in_function: bool,
    defs: Map<Seq<char>, u64>,
) -> bool
    decreases es, n,
{
    if n <= 0 || n > es.len() {
        true
    } else {
        legal_all(es, n - 1, in_function, defs) && legal_expr(es[n - 1], in_function, defs)
    }
}

/// Whether the first `n` bindings of a `let` bind no reserved word and have
/// legal right-hand sides.
pub open spec fn legal_bindings(
    bs: Seq<(Seq<char>, ExprView)>,
    n: int,
    in_function: bool,
    defs: Map<Seq<char>, u64>,
) -> bool
    decreases bs, n,
{
    if n <= 0 || n > bs.len() {
        true
    } else {
        legal_bindings(bs, n - 1, in_function, defs) && !is_reserved(bs[n - 1].0) && legal_expr(
            bs[n - 1].1,
            in_function,
            defs,
        )
    }
}

/// An expression that the front end accepts is legal.
pub proof fn accepted_is_legal(s: TreeView, is_def: bool, defs: Map<Seq<char>, u64>)
    requires
        parse_expr_spec(s, is_def, defs) is Ok,
    ensures
        legal_expr(parse_expr_spec(s, is_def, defs)->Ok_0, is_def, defs),
    decreases s, 1nat,
{
    match s {
        TreeView::List(items) => {
            if items.len() > 0 && items[0] is Sym {
                accepted_form_is_legal(s, is_def, defs);
            }
        },
        _ => {},
    }
}

/// A list that the front end accepts as a form or as a call is legal.
pub proof fn accepted_form_is_legal(s: TreeView, is_def: bool, defs: Map<Seq<char>, u64>)
    requires
        s is List,
        s->List_0.len() > 0,
        s->List_0[0] is Sym,
        parse_expr_spec(s, is_def, defs) is Ok,
    ensures
        legal_expr(parse_expr_spec(s, is_def, defs)->Ok_0, is_def, defs),
    decreases s, 0nat,
{
    let items = s->List_0;
    let head = items[0]->Sym_0;
    let e = parse_expr_spec(s, is_def, defs)->Ok_0;
    match e {
        ExprView::UnOp(_, _) => {
            accepted_is_legal(items[1], is_def, defs);
        },
        ExprView::BinOp(_, _, _) => {
            accepted_is_legal(items[1], is_def, defs);
            accepted_is_legal(items[2], is_def, defs);
        },
        ExprView::If(_, _, _) => {
            accepted_is_legal(items[1], is_def, defs);
            accepted_is_legal(items[2], is_def, defs);
            accepted_is_legal(items[3], is_def, defs);
        },
        ExprView::Loop(_) => {
            accepted_is_legal(items[1], is_def, defs);
        },
        ExprView::Break(_) => {
            accepted_is_legal(items[1], is_def, defs);
        },
        ExprView::SetVar(_, _) => {
            accepted_is_legal(items[2], is_def, defs);
        },
        ExprView::Let(_, _) => {
            let list = items[1]->List_0;
            accepted_bindings_are_legal(list, list.len() as int, is_def, defs);
            accepted_is_legal(items[2], is_def, defs);
        },
        ExprView::Block(_) => {
            accepted_tail_is_legal(items, items.len() as int, is_def, defs);
        },
        ExprView::Call(_, _) => {
            accepted_tail_is_legal(items, items.len() as int, is_def, defs);
        },
        _ => {},
    }
}

/// The expressions that the front end reads behind the head of a list are
/// legal, and there is one for each element.
pub proof fn accepted_tail_is_legal(
    items: Seq<TreeView>,
    n: int,
    is_def: bool,
    defs: Map<Seq<char>, u64>,
)
    requires
        1 <= n <= items.len(),
        parse_tail_spec(items, n, is_def, defs) is Ok,
    ensures
        parse_tail_spec(items, n, is_def, defs)->Ok_0.len() == n - 1,
        legal_all(
            parse_tail_spec(items, n, is_def, defs)->Ok_0,
            n - 1,
            is_def,
            defs,
        ),
    decreases items, n,
{
    if n > 1 {
        accepted_tail_is_legal(items, n - 1, is_def, defs);
        accepted_is_legal(items[n - 1], is_def, defs);
        let before = parse_tail_spec(items, n - 1, is_def, defs)->Ok_0;
        let e = parse_expr_spec(items[n - 1], is_def, defs)->Ok_0;
        lemma_legal_all_push(before, e, is_def, defs);
    }
}

/// A list of legal expressions with one more legal expression behind it is
/// a list of legal expressions.
pub proof fn lemma_legal_all_push(
    es: Seq<ExprView>,
    e: ExprView,
    in_function: bool,
    defs: Map<Seq<char>, u64>,
)
    requires
        legal_all(es, es.len() as int, in_function, defs),
        legal_expr(e, in_function, defs),
    ensures
        legal_all(es.push(e), es.len() as int + 1, in_function, defs),
{
    lemma_legal_all_prefix(es, es.push(e), es.len() as int, in_function, defs);
}

/// Whether the first `n` expressions of a list are legal depends on those
/// expressions alone.
pub proof fn lemma_legal_all_prefix(
    a: Seq<ExprView>,
    b: Seq<ExprView>,
    n: int,
    in_function: bool,
    defs: Map<Seq<char>, u64>,
)
    requires
        0 <= n <= a.len(),
        n <= b.len(),
        forall|i: int| 0 <= i < n ==> a[i] == b[i],
    ensures
        legal_all(a, n, in_function, defs) == legal_all(b, n, in_function, defs),
    decreases n,
{
    if n > 0 {
        lemma_legal_all_prefix(a, b, n - 1, in_function, defs);
    }
}

/// Whether the first `n` bindings are legal depends on those bindings
/// alone.
pub proof fn lemma_legal_bindings_prefix(
    a: Seq<(Seq<char>, ExprView)>,
    b: Seq<(Seq<char>, ExprView)>,
    n: int,
    in_function: bool,
    defs: Map<Seq<char>, u64>,
)
    requires
        0 <= n <= a.len(),
        n <= b.len(),
        forall|i: int| 0 <= i < n ==> a[i] == b[i],
    ensures
        legal_bindings(a, n, in_function, defs) == legal_bindings(b, n, in_function, defs),
    decreases n,
{
    if n > 0 {
        lemma_legal_bindings_prefix(a, b, n - 1, in_function, defs);
    }
}

/// The bindings that the front end reads are legal and bind different
/// names, and there is one for each element of the list.
pub proof fn accepted_bindings_are_legal(
    items: Seq<TreeView>,
    n: int,
    is_def: bool,
    defs: Map<Seq<char>, u64>,
)
    requires
        0 <= n <= items.len(),
        parse_bindings_spec(items, n, is_def, defs) is Ok,
    ensures
        parse_bindings_spec(items, n, is_def, defs)->Ok_0.len() == n,
        legal_bindings(parse_bindings_spec(items, n, is_def, defs)->Ok_0, n, is_def, defs),
        unique_names(parse_bindings_spec(items, n, is_def, defs)->Ok_0, n),
    decreases items, n,
{
    if n > 0 {
        accepted_bindings_are_legal(items, n - 1, is_def, defs);
        let before = parse_bindings_spec(items, n - 1, is_def, defs)->Ok_0;
        let b = parse_bind_spec(items[n - 1], is_def, defs)->Ok_0;
        let pair = items[n - 1]->List_0;
        accepted_is_legal(pair[1], is_def, defs);
        let after = before.push(b);
        lemma_legal_bindings_prefix(before, after, n - 1, is_def, defs);
        assert(!binds(before, before.len() as int, b.0));
        assert forall|j: int, k: int| 0 <= j < k < n && k < after.len() implies after[j].0
            != after[k].0 by {
            if k == n - 1 {
                assert(after[j] == before[j]);
                assert((#[trigger] before[j]).0 != b.0);
            } else {
                assert(after[j] == before[j]);
                assert(after[k] == before[k]);
            }
        }
    }
}

/// Whether the definitions of a list are legal: none has a reserved word
/// for its name or for a parameter, and each body is a legal expression of
/// a function.
pub open spec fn legal_definitions(defs: Seq<DefinitionView>, table: Map<Seq<char>, u64>) -> bool {
    forall|i: int|
        0 <= i < defs.len() ==> {
            &&& !is_reserved(def_name(#[trigger] defs[i]))
            &&& forall|k: int|
                0 <= k < def_params(defs[i]).len() ==> !is_reserved(
                    #[trigger] def_params(defs[i])[k],
                )
            &&& legal_expr(def_body(defs[i]), true, table)
        }
}

/// The parameters that the front end reads are no reserved words.
pub proof fn accepted_params_are_legal(sig: Seq<TreeView>, n: int)
    requires
        1 <= n <= sig.len(),
        parse_params_spec(sig, n) is Ok,
    ensures
        forall|k: int|
            0 <= k < parse_params_spec(sig, n)->Ok_0.len() ==> !is_reserved(
                #[trigger] parse_params_spec(sig, n)->Ok_0[k],
            ),
    decreases n,
{
    if n > 1 {
        accepted_params_are_legal(sig, n - 1);
        let before = parse_params_spec(sig, n - 1)->Ok_0;
        let after = parse_params_spec(sig, n)->Ok_0;
        assert forall|k: int| 0 <= k < after.len() implies !is_reserved(#[trigger] after[k]) by {
            if k < before.len() {
                assert(after[k] == before[k]);
            }
        }
    }
}

/// The definitions that the front end reads are legal, and their names are
/// the names that the program declares.
pub proof fn accepted_definitions_are_legal(
    items: Seq<TreeView>,
    n: int,
    table: Map<Seq<char>, u64>,
)
    requires
        0 <= n <= items.len(),
        parse_defs_spec(items, n, table) is Ok,
    ensures
        legal_definitions(parse_defs_spec(items, n, table)->Ok_0.0, table),
        parse_defs_spec(items, n, table)->Ok_0.0.len() == n,
        forall|x: Seq<char>|
            parse_defs_spec(items, n, table)->Ok_0.1.contains(x) <==> exists|i: int|
                0 <= i < n && def_name(#[trigger] parse_defs_spec(items, n, table)->Ok_0.0[i])
                    == x,
    decreases n,
{
    if n > 0 {
        accepted_definitions_are_legal(items, n - 1, table);
        let (before, names) = parse_defs_spec(items, n - 1, table)->Ok_0;
        let (d, name) = parse_definition_spec(items[n - 1], table)->Ok_0;
        let (after, all) = parse_defs_spec(items, n, table)->Ok_0;
        let sig = signature_of(items[n - 1]);
        accepted_params_are_legal(sig, sig.len() as int);
        accepted_is_legal(body_of(items[n - 1]), true, table);
        assert(after == before.push(d));
        assert forall|i: int| 0 <= i < after.len() implies {
            &&& !is_reserved(def_name(#[trigger] after[i]))
            &&& forall|k: int|
                0 <= k < def_params(after[i]).len() ==> !is_reserved(
                    #[trigger] def_params(after[i])[k],
                )
            &&& legal_expr(def_body(after[i]), true, table)
        } by {
            if i < before.len() {
                assert(after[i] == before[i]);
            }
        }
        assert forall|x: Seq<char>|
            all.contains(x) <==> exists|i: int|
                0 <= i < n && def_name(#[trigger] after[i]) == x by {
            if names.contains(x) {
                let i = choose|i: int| 0 <= i < n - 1 && def_name(#[trigger] before[i]) == x;
                assert(after[i] == before[i]);
            }
            if x == name {
                assert(def_name(after[n - 1]) == x);
            }
            if exists|i: int| 0 <= i < n && def_name(#[trigger] after[i]) == x {
                let i = choose|i: int| 0 <= i < n && def_name(#[trigger] after[i]) == x;
                if i < n - 1 {
                    assert(after[i] == before[i]);
                    assert(def_name(before[i]) == x);
                }
            }
        }
    }
}

/// A program that the front end accepts is legal: its definitions are
/// legal, its main expression is a legal expression outside every function,
/// and the names that it declares are the names of its definitions.
pub proof fn accepted_program_is_legal(s: TreeView)
    requires
        parse_program_spec(s) is Ok,
    ensures
        ({
            let p = parse_program_spec(s)->Ok_0;
            let table = arities_spec(s->List_0, s->List_0.len() as int)->Ok_0;
            &&& legal_definitions(p.defs, table)
            &&& legal_expr(p.main, false, table)
            &&& forall|x: Seq<char>|
                p.func_list.contains(x) <==> exists|i: int|
                    0 <= i < p.defs.len() && def_name(#[trigger] p.defs[i]) == x
        }),
{
    let items = s->List_0;
    let table = arities_spec(items, items.len() as int)->Ok_0;
    let k = leading_defs(items, 0);
    lemma_leading_defs_bounds(items, 0);
    accepted_definitions_are_legal(items, k, table);
    accepted_is_legal(items[k], false, table);
}

} // verus!
