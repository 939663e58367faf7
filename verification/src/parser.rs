//! The front end: from a parse tree to an expression, a definition or a
//! program, or to the reason for rejecting it.

use vstd::prelude::*;
use vstd::string::*;
use crate::env::{
    arity_entries, arity_get, arity_insert, arity_new, name_members, names_insert, names_new,
};
use crate::error::{CompileError, CompileErrorView};
use crate::syntax::{
    arities_spec, arity_after, binary_op, binds, is_def_spec, is_reserved, leading_defs,
    parse_bind_spec, parse_bindings_spec, parse_definition_spec, parse_defs_spec, parse_expr_spec,
    parse_params_spec, parse_program_spec, parse_tail_spec, sexps_view, signature_of, unary_op,
    Atom, Tree, TreeView,
};
use crate::types::{
    bindings_view, defs_of, exprs_view, names_of, Definition, DefinitionView, Expr, ExprView, Op1,
    Op2, Program, GREATEST_VAL, LEAST_VAL,
};

verus! {

/// Whether `name` is the word `word`.
fn is_word(name: &String, word: &str) -> (same: bool)
    ensures
        same == (name@ == word@),
{
    let owned = word.to_owned();
    *name == owned
}

/// Whether `name` is a reserved word.
pub fn check_reserved_words(name: String) -> (reserved: bool)
    ensures
        reserved == is_reserved(name@),
{
    is_word(&name, "let") || is_word(&name, "block") || is_word(&name, "set!") || is_word(
        &name,
        "loop",
    ) || is_word(&name, "break") || is_word(&name, "if") || is_word(&name, "input") || is_word(
        &name,
        "+",
    ) || is_word(&name, "-") || is_word(&name, "*") || is_word(&name, "=") || is_word(
        &name,
        "true",
    ) || is_word(&name, "false") || is_word(&name, ">") || is_word(&name, "<") || is_word(
        &name,
        ">=",
    ) || is_word(&name, "<=") || is_word(&name, "fun") || is_word(&name, "print") || is_word(
        &name,
        "sub1",
    ) || is_word(&name, "add1") || is_word(&name, "isnum") || is_word(&name, "isbool")
}

/// The unary operator that `head` names, if it names one.
fn unary_op_of(head: &String) -> (op: Option<Op1>)
    ensures
        op == unary_op(head@),
{
    if is_word(head, "add1") {
        Some(Op1::Add1)
    } else if is_word(head, "sub1") {
        Some(Op1::Sub1)
    } else if is_word(head, "isnum") {
        Some(Op1::IsNum)
    } else if is_word(head, "isbool") {
        Some(Op1::IsBool)
    } else if is_word(head, "print") {
        Some(Op1::Print)
    } else {
        None
    }
}

/// The binary operator that `head` names, if it names one.
fn binary_op_of(head: &String) -> (op: Option<Op2>)
    ensures
        op == binary_op(head@),
{
    if is_word(head, "+") {
        Some(Op2::Plus)
    } else if is_word(head, "-") {
        Some(Op2::Minus)
    } else if is_word(head, "*") {
        Some(Op2::Times)
    } else if is_word(head, "=") {
        Some(Op2::Equal)
    } else if is_word(head, ">=") {
        Some(Op2::GreaterEqual)
    } else if is_word(head, "<=") {
        Some(Op2::LessEqual)
    } else if is_word(head, ">") {
        Some(Op2::Greater)
    } else if is_word(head, "<") {
        Some(Op2::Less)
    } else {
        None
    }
}

/// Whether the result `r` is the outcome `expected` of reading an
/// expression.
pub open spec fn reads(r: Result<Expr, CompileError>, expected: Result<ExprView, CompileErrorView>) -> bool {
    match expected {
        Ok(e) => r matches Ok(x) && x@ == e,
        Err(err) => r matches Err(x) && x@ == err,
    }
}

/// A rejection among the first `n` elements of a list rejects every longer
/// prefix in the same way.
pub proof fn lemma_tail_rejects(
    items: Seq<TreeView>,
    n: int,
    m: int,
    is_def: bool,
    defs: Map<Seq<char>, u64>,
)
    requires
        0 <= n <= m <= items.len(),
        parse_tail_spec(items, n, is_def, defs) is Err,
    ensures
        parse_tail_spec(items, m, is_def, defs) == parse_tail_spec(items, n, is_def, defs),
    decreases m - n,
{
    if n < m {
        lemma_tail_rejects(items, n, m - 1, is_def, defs);
    }
}

/// A rejection among the first `n` bindings rejects every longer prefix in
/// the same way.
pub proof fn lemma_bindings_rejected(
    items: Seq<TreeView>,
    n: int,
    m: int,
    is_def: bool,
    defs: Map<Seq<char>, u64>,
)
    requires
        0 <= n <= m <= items.len(),
        parse_bindings_spec(items, n, is_def, defs) is Err,
    ensures
        parse_bindings_spec(items, m, is_def, defs) == parse_bindings_spec(
            items,
            n,
            is_def,
            defs,
        ),
    decreases m - n,
{
    if n < m {
        lemma_bindings_rejected(items, n, m - 1, is_def, defs);
    }
}

/// The expression that the tree `s` stands for, or the reason for rejecting
/// it. `is_def` says that the tree stands in a function body; `defs` maps
/// each declared function name to its arity.
pub fn parse_expr(s: &Tree, is_def: bool, defs: &im::HashMap<String, u64>) -> (r: Result<
    Expr,
    CompileError,
>)
    ensures
        reads(r, parse_expr_spec(s@, is_def, arity_entries(*defs))),
    decreases s, 0nat,
{
    match s {
        Tree::Atom(Atom::I(n)) => {
            if *n < LEAST_VAL || *n > GREATEST_VAL {
                Err(CompileError::NumberOutOfBounds)
            } else {
                Ok(Expr::Number(*n))
            }
        },
        Tree::Atom(Atom::S(var)) => {
            if is_word(var, "true") {
                Ok(Expr::Boolean(true))
            } else if is_word(var, "false") {
                Ok(Expr::Boolean(false))
            } else if is_word(var, "input") && is_def {
                Err(CompileError::InputInFunction)
            } else {
                Ok(Expr::Id(var.clone()))
            }
        },
        Tree::Atom(Atom::F) => Err(CompileError::InvalidShape),
        Tree::List(vec) => {
            assert(s->List_0 == *vec);
            parse_list(vec, is_def, defs)
        },
    }
}

/// The expression that a list of trees stands for, or the reason for
/// rejecting it.
pub fn parse_list(vec: &Vec<Tree>, is_def: bool, defs: &im::HashMap<String, u64>) -> (r: Result<
    Expr,
    CompileError,
>)
    ensures
        reads(r, parse_expr_spec(TreeView::List(sexps_view(*vec)), is_def, arity_entries(*defs))),
    decreases vec, 2nat,
{
    let ghost items = sexps_view(*vec);
    if vec.len() == 0 {
        return Err(CompileError::InvalidShape);
    }
    let head = match &vec[0] {
        Tree::Atom(Atom::S(op)) => op,
        _ => {
            return Err(CompileError::InvalidShape);
        },
    };
    assert(items[0] == TreeView::Sym(head@));
    let unary = unary_op_of(head);
    let binary = binary_op_of(head);
    if unary.is_some() && vec.len() == 2 {
        proof {
            vstd::std_specs::vec::axiom_vec_index_decreases(*vec, 1);
        }
        match parse_expr(&vec[1], is_def, defs) {
            Ok(a) => Ok(Expr::UnOp(unary.unwrap(), Box::new(a))),
            Err(err) => Err(err),
        }
    } else if binary.is_some() && vec.len() == 3 {
        proof {
            vstd::std_specs::vec::axiom_vec_index_decreases(*vec, 1);
            vstd::std_specs::vec::axiom_vec_index_decreases(*vec, 2);
        }
        let a = match parse_expr(&vec[1], is_def, defs) {
            Ok(a) => a,
            Err(err) => {
                return Err(err);
            },
        };
        let b = match parse_expr(&vec[2], is_def, defs) {
            Ok(b) => b,
            Err(err) => {
                return Err(err);
            },
        };
        Ok(Expr::BinOp(binary.unwrap(), Box::new(a), Box::new(b)))
    } else if is_word(head, "if") && vec.len() == 4 {
        proof {
            vstd::std_specs::vec::axiom_vec_index_decreases(*vec, 1);
            vstd::std_specs::vec::axiom_vec_index_decreases(*vec, 2);
            vstd::std_specs::vec::axiom_vec_index_decreases(*vec, 3);
        }
        let c = match parse_expr(&vec[1], is_def, defs) {
            Ok(c) => c,
            Err(err) => {
                return Err(err);
            },
        };
        let t = match parse_expr(&vec[2], is_def, defs) {
            Ok(t) => t,
            Err(err) => {
                return Err(err);
            },
        };
        let f = match parse_expr(&vec[3], is_def, defs) {
            Ok(f) => f,
            Err(err) => {
                return Err(err);
            },
        };
        Ok(Expr::If(Box::new(c), Box::new(t), Box::new(f)))
    } else if is_word(head, "loop") && vec.len() == 2 {
        proof {
            vstd::std_specs::vec::axiom_vec_index_decreases(*vec, 1);
        }
        match parse_expr(&vec[1], is_def, defs) {
            Ok(a) => Ok(Expr::Loop(Box::new(a))),
            Err(err) => Err(err),
        }
    } else if is_word(head, "let") && vec.len() == 3 && is_list(&vec[1]) {
        proof {
            vstd::std_specs::vec::axiom_vec_index_decreases(*vec, 1);
            vstd::std_specs::vec::axiom_vec_index_decreases(*vec, 2);
        }
        let bind_vec = match &vec[1] {
            Tree::List(list_vec) => {
                assert(vec[1]->List_0 == *list_vec);
                match parse_bindings(list_vec, is_def, defs) {
                    Ok(bs) => bs,
                    Err(err) => {
                        return Err(err);
                    },
                }
            },
            _ => {
                return Err(CompileError::InvalidShape);
            },
        };
        if bind_vec.len() == 0 {
            return Err(CompileError::InvalidShape);
        }
        match parse_expr(&vec[2], is_def, defs) {
            Ok(body) => Ok(Expr::Let(bind_vec, Box::new(body))),
            Err(err) => Err(err),
        }
    } else if is_word(head, "block") {
        let coll = match parse_tail(vec, is_def, defs) {
            Ok(es) => es,
            Err(err) => {
                return Err(err);
            },
        };
        if coll.len() == 0 {
            return Err(CompileError::InvalidShape);
        }
        Ok(Expr::Block(coll))
    } else if is_word(head, "set!") && vec.len() == 3 && is_symbol(&vec[1]) {
        proof {
            vstd::std_specs::vec::axiom_vec_index_decreases(*vec, 2);
        }
        let name = match &vec[1] {
            Tree::Atom(Atom::S(name)) => name.clone(),
            _ => {
                return Err(CompileError::InvalidShape);
            },
        };
        match parse_expr(&vec[2], is_def, defs) {
            Ok(a) => Ok(Expr::SetVar(name, Box::new(a))),
            Err(err) => Err(err),
        }
    } else if is_word(head, "break") && vec.len() == 2 {
        proof {
            vstd::std_specs::vec::axiom_vec_index_decreases(*vec, 1);
        }
        match parse_expr(&vec[1], is_def, defs) {
            Ok(a) => Ok(Expr::Break(Box::new(a))),
            Err(err) => Err(err),
        }
    } else {
        if check_reserved_words(head.clone()) {
            return Err(CompileError::ReservedWord);
        }
        let arity = match arity_get(defs, head) {
            Some(n) => n,
            None => {
                return Err(CompileError::UndeclaredFunction);
            },
        };
        if (vec.len() - 1) as u64 != arity {
            return Err(CompileError::ArityMismatch);
        }
        match parse_tail(vec, is_def, defs) {
            Ok(exprs) => Ok(Expr::Call(head.clone(), exprs)),
            Err(err) => Err(err),
        }
    }
}

/// Whether a tree is a list.
fn is_list(s: &Tree) -> (b: bool)
    ensures
        b == (s@ is List),
{
    match s {
        Tree::List(_) => true,
        _ => false,
    }
}

/// Whether a tree is a symbol.
fn is_symbol(s: &Tree) -> (b: bool)
    ensures
        b == (s@ is Sym),
{
    match s {
        Tree::Atom(Atom::S(_)) => true,
        _ => false,
    }
}

/// The expressions that the elements of a list behind its first stand for,
/// in order, or the first reason for rejecting one.
pub fn parse_tail(vec: &Vec<Tree>, is_def: bool, defs: &im::HashMap<String, u64>) -> (r: Result<
    Vec<Expr>,
    CompileError,
>)
    ensures
        match parse_tail_spec(sexps_view(*vec), vec.len() as int, is_def, arity_entries(*defs)) {
            Ok(es) => r matches Ok(v) && exprs_view(v) == es,
            Err(err) => r matches Err(x) && x@ == err,
        },
    decreases vec, 1nat,
{
    let ghost items = sexps_view(*vec);
    let mut coll: Vec<Expr> = Vec::new();
    assert(exprs_view(coll) =~= Seq::empty());
    let mut i: usize = 1;
    while i < vec.len()
        invariant
            1 <= i,
            i == 1 || i <= vec.len(),
            items == sexps_view(*vec),
            items.len() == vec.len(),
            parse_tail_spec(items, i as int, is_def, arity_entries(*defs)) == Ok::<
                Seq<ExprView>,
                CompileErrorView,
            >(exprs_view(coll)),
        decreases vec.len() - i,
    {
        proof {
            vstd::std_specs::vec::axiom_vec_index_decreases(*vec, i as int);
        }
        let ghost before = exprs_view(coll);
        match parse_expr(&vec[i], is_def, defs) {
            Ok(e) => {
                coll.push(e);
                assert(exprs_view(coll) =~= before.push(e@));
            },
            Err(err) => {
                proof {
                    lemma_tail_rejects(
                        items,
                        i + 1,
                        vec.len() as int,
                        is_def,
                        arity_entries(*defs),
                    );
                }
                return Err(err);
            },
        }
        i = i + 1;
    }
    Ok(coll)
}

/// The binding that a tree stands for: its name and its right-hand side; or
/// the reason for rejecting it.
pub fn parse_bind(s: &Tree, is_def: bool, defs: &im::HashMap<String, u64>) -> (r: Result<
    (String, Expr),
    CompileError,
>)
    ensures
        match parse_bind_spec(s@, is_def, arity_entries(*defs)) {
            Ok(b) => r matches Ok(x) && x.0@ == b.0 && x.1@ == b.1,
            Err(err) => r matches Err(x) && x@ == err,
        },
    decreases s, 1nat,
{
    match s {
        Tree::List(vec) => {
            assert(s->List_0 == *vec);
            if vec.len() != 2 {
                return Err(CompileError::InvalidShape);
            }
            assert(sexps_view(*vec)[0] == vec[0]@);
            assert(sexps_view(*vec)[1] == vec[1]@);
            match &vec[0] {
                Tree::Atom(Atom::S(var)) => {
                    if check_reserved_words(var.clone()) {
                        return Err(CompileError::ReservedWord);
                    }
                    proof {
                        vstd::std_specs::vec::axiom_vec_index_decreases(*vec, 1);
                    }
                    match parse_expr(&vec[1], is_def, defs) {
                        Ok(e) => Ok((var.clone(), e)),
                        Err(err) => Err(err),
                    }
                },
                _ => Err(CompileError::InvalidShape),
            }
        },
        _ => Err(CompileError::InvalidShape),
    }
}

/// Whether one of the bindings in `bs` binds `name`.
fn binds_name(bs: &Vec<(String, Expr)>, name: &String) -> (found: bool)
    ensures
        found == binds(bindings_view(*bs), bs.len() as int, name@),
{
    let mut j: usize = 0;
    while j < bs.len()
        invariant
            j <= bs.len(),
            !binds(bindings_view(*bs), j as int, name@),
        decreases bs.len() - j,
    {
        if bs[j].0 == *name {
            assert(bindings_view(*bs)[j as int].0 == name@);
            return true;
        }
        j = j + 1;
    }
    false
}

/// The bindings that the elements of a list stand for, in order, or the
/// first reason for rejecting one.
pub fn parse_bindings(
    list_vec: &Vec<Tree>,
    is_def: bool,
    defs: &im::HashMap<String, u64>,
) -> (r: Result<Vec<(String, Expr)>, CompileError>)
    ensures
        match parse_bindings_spec(
            sexps_view(*list_vec),
            list_vec.len() as int,
            is_def,
            arity_entries(*defs),
        ) {
            Ok(bs) => r matches Ok(v) && bindings_view(v) == bs,
            Err(err) => r matches Err(x) && x@ == err,
        },
    decreases list_vec, 2nat,
{
    let ghost items = sexps_view(*list_vec);
    let mut bind_vec: Vec<(String, Expr)> = Vec::new();
    assert(bindings_view(bind_vec) =~= Seq::empty());
    let mut i: usize = 0;
    while i < list_vec.len()
        invariant
            i <= list_vec.len(),
            items == sexps_view(*list_vec),
            items.len() == list_vec.len(),
            parse_bindings_spec(items, i as int, is_def, arity_entries(*defs)) == Ok::<
                Seq<(Seq<char>, ExprView)>,
                CompileErrorView,
            >(bindings_view(bind_vec)),
        decreases list_vec.len() - i,
    {
        proof {
            vstd::std_specs::vec::axiom_vec_index_decreases(*list_vec, i as int);
        }
        let ghost before = bindings_view(bind_vec);
        let bound = match parse_bind(&list_vec[i], is_def, defs) {
            Ok(b) => b,
            Err(err) => {
                proof {
                    lemma_bindings_rejected(
                        items,
                        i + 1,
                        list_vec.len() as int,
                        is_def,
                        arity_entries(*defs),
                    );
                }
                return Err(err);
            },
        };
        if binds_name(&bind_vec, &bound.0) {
            proof {
                lemma_bindings_rejected(
                    items,
                    i + 1,
                    list_vec.len() as int,
                    is_def,
                    arity_entries(*defs),
                );
            }
            return Err(CompileError::DuplicateBinding);
        }
        let ghost name = bound.0@;
        let ghost rhs = bound.1@;
        bind_vec.push(bound);
        assert(bindings_view(bind_vec) =~= before.push((name, rhs)));
        i = i + 1;
    }
    Ok(bind_vec)
}

/// Whether a tree has the shape of a definition.
pub fn is_def(s: &Tree) -> (b: bool)
    ensures
        b == is_def_spec(s@),
{
    match s {
        Tree::List(def_vec) => {
            if def_vec.len() != 3 {
                return false;
            }
            assert(sexps_view(*def_vec)[0] == def_vec[0]@);
            assert(sexps_view(*def_vec)[1] == def_vec[1]@);
            match &def_vec[0] {
                Tree::Atom(Atom::S(keyword)) => is_word(keyword, "fun") && is_list(&def_vec[1]),
                _ => false,
            }
        },
        _ => false,
    }
}

/// A rejection among the first `n` elements of a signature rejects every
/// longer prefix in the same way.
pub proof fn lemma_params_rejected(sig: Seq<TreeView>, n: int, m: int)
    requires
        0 <= n <= m <= sig.len(),
        parse_params_spec(sig, n) is Err,
    ensures
        parse_params_spec(sig, m) == parse_params_spec(sig, n),
    decreases m - n,
{
    if n < m {
        lemma_params_rejected(sig, n, m - 1);
    }
}

/// The definition that the tree `s` stands for, with its name, or the
/// reason for rejecting it.
pub fn parse_definition(s: &Tree, defs: &im::HashMap<String, u64>) -> (r: Result<
    (Definition, String),
    CompileError,
>)
    ensures
        match parse_definition_spec(s@, arity_entries(*defs)) {
            Ok((d, name)) => r matches Ok(x) && x.0@ == d && x.1@ == name,
            Err(err) => r matches Err(x) && x@ == err,
        },
{
    if !is_def(s) {
        return Err(CompileError::InvalidShape);
    }
    match s {
        Tree::List(def_vec) => {
            assert(sexps_view(*def_vec)[1] == def_vec[1]@);
            assert(sexps_view(*def_vec)[2] == def_vec[2]@);
            match &def_vec[1] {
                Tree::List(name_vec) => {
                    let ghost sig = sexps_view(*name_vec);
                    assert(sig == signature_of(s@));
                    if name_vec.len() == 0 {
                        return Err(CompileError::InvalidShape);
                    }
                    assert(sig[0] == name_vec[0]@);
                    let funname = match &name_vec[0] {
                        Tree::Atom(Atom::S(name)) => name,
                        _ => {
                            return Err(CompileError::InvalidShape);
                        },
                    };
                    if check_reserved_words(funname.clone()) {
                        return Err(CompileError::ReservedWord);
                    }
                    let mut arg_vec: Vec<String> = Vec::new();
                    assert(names_of(arg_vec@) =~= Seq::empty());
                    let mut i: usize = 1;
                    while i < name_vec.len()
                        invariant
                            1 <= i <= name_vec.len(),
                            is_def_spec(s@),
                            sig == signature_of(s@),
                            sig[0] == TreeView::Sym(funname@),
                            !is_reserved(funname@),
                            sig == sexps_view(*name_vec),
                            sig.len() == name_vec.len(),
                            parse_params_spec(sig, i as int) == Ok::<
                                Seq<Seq<char>>,
                                CompileErrorView,
                            >(names_of(arg_vec@)),
                        decreases name_vec.len() - i,
                    {
                        assert(sig[i as int] == name_vec[i as int]@);
                        let ghost before = names_of(arg_vec@);
                        match &name_vec[i] {
                            Tree::Atom(Atom::S(str_val)) => {
                                if check_reserved_words(str_val.clone()) {
                                    proof {
                                        lemma_params_rejected(sig, i + 1, name_vec.len() as int);
                                    }
                                    return Err(CompileError::ReservedWord);
                                }
                                arg_vec.push(str_val.clone());
                                assert(names_of(arg_vec@) =~= before.push(str_val@));
                            },
                            _ => {
                                proof {
                                    lemma_params_rejected(sig, i + 1, name_vec.len() as int);
                                }
                                return Err(CompileError::InvalidShape);
                            },
                        }
                        i = i + 1;
                    }
                    let body = match parse_expr(&def_vec[2], true, defs) {
                        Ok(body) => body,
                        Err(err) => {
                            return Err(err);
                        },
                    };
                    Ok((Definition::Fun(funname.clone(), arg_vec, body), funname.clone()))
                },
                _ => Err(CompileError::InvalidShape),
            }
        },
        _ => Err(CompileError::InvalidShape),
    }
}

/// Enters the name and the arity of a definition in the arity table, if the
/// tree `s` has the shape of a definition; a signature that does not start
/// with a symbol is rejected, and the table is then as before.
pub fn find_arg_num(def_arg_num: &mut im::HashMap<String, u64>, s: &Tree) -> (r: Result<
    (),
    CompileError,
>)
    ensures
        match arity_after(arity_entries(*old(def_arg_num)), s@) {
            Ok(table) => r is Ok && arity_entries(*final(def_arg_num)) == table,
            Err(err) => r matches Err(x) && x@ == err && arity_entries(*final(def_arg_num))
                == arity_entries(*old(def_arg_num)),
        },
{
    if !is_def(s) {
        return Ok(());
    }
    match s {
        Tree::List(def_vec) => {
            assert(sexps_view(*def_vec)[1] == def_vec[1]@);
            match &def_vec[1] {
                Tree::List(name_vec) => {
                    if name_vec.len() == 0 {
                        return Err(CompileError::InvalidShape);
                    }
                    assert(sexps_view(*name_vec)[0] == name_vec[0]@);
                    match &name_vec[0] {
                        Tree::Atom(Atom::S(name)) => {
                            arity_insert(def_arg_num, name.clone(), (name_vec.len() - 1) as u64);
                            Ok(())
                        },
                        _ => Err(CompileError::InvalidShape),
                    }
                },
                _ => Ok(()),
            }
        },
        _ => Ok(()),
    }
}

/// A rejection among the first `n` top-level trees rejects every longer
/// prefix of the first pass in the same way.
pub proof fn lemma_arities_rejected(items: Seq<TreeView>, n: int, m: int)
    requires
        0 <= n <= m <= items.len(),
        arities_spec(items, n) is Err,
    ensures
        arities_spec(items, m) == arities_spec(items, n),
    decreases m - n,
{
    if n < m {
        lemma_arities_rejected(items, n, m - 1);
    }
}

/// The program that the tree `s` stands for, or the reason for rejecting
/// it.
pub fn parse_program(s: &Tree) -> (r: Result<Program, CompileError>)
    ensures
        match parse_program_spec(s@) {
            Ok(p) => r matches Ok(x) && x@.defs == p.defs && x@.main == p.main && x@.func_list
                == p.func_list,
            Err(err) => r matches Err(x) && x@ == err,
        },
{
    match s {
        Tree::List(vec) => {
            let ghost items = sexps_view(*vec);
            let mut def_arg_num = arity_new();
            let mut n: usize = 0;
            while n < vec.len()
                invariant
                    n <= vec.len(),
                    s@ == TreeView::List(items),
                    items == sexps_view(*vec),
                    items.len() == vec.len(),
                    arities_spec(items, n as int) == Ok::<Map<Seq<char>, u64>, CompileErrorView>(
                        arity_entries(def_arg_num),
                    ),
                decreases vec.len() - n,
            {
                assert(items[n as int] == vec[n as int]@);
                match find_arg_num(&mut def_arg_num, &vec[n]) {
                    Ok(_) => {},
                    Err(err) => {
                        proof {
                            lemma_arities_rejected(items, n + 1, vec.len() as int);
                        }
                        return Err(err);
                    },
                }
                n = n + 1;
            }
            let ghost table = arity_entries(def_arg_num);
            proof {
                lemma_leading_defs_bounds(items, 0);
            }
            let mut defs: Vec<Definition> = Vec::new();
            assert(defs_of(defs@) =~= Seq::empty());
            let mut func_list = names_new();
            let mut i: usize = 0;
            while i < vec.len()
                invariant
                    i <= vec.len(),
                    defs.len() == i,
                    items == sexps_view(*vec),
                    items.len() == vec.len(),
                    table == arity_entries(def_arg_num),
                    s@ == TreeView::List(items),
                    arities_spec(items, items.len() as int) == Ok::<
                        Map<Seq<char>, u64>,
                        CompileErrorView,
                    >(table),
                    leading_defs(items, 0) == leading_defs(items, i as int),
                    leading_defs(items, i as int) >= i,
                    parse_defs_spec(items, i as int, table) == Ok::<
                        (Seq<DefinitionView>, Set<Seq<char>>),
                        CompileErrorView,
                    >((defs_of(defs@), name_members(func_list))),
                decreases vec.len() - i,
            {
                assert(items[i as int] == vec[i as int]@);
                let def_or_exp = &vec[i];
                if is_def(def_or_exp) {
                    proof {
                        lemma_leading_defs_bounds(items, i + 1);
                    }
                    let ghost before = defs_of(defs@);
                    match parse_definition(def_or_exp, &def_arg_num) {
                        Ok((def, name)) => {
                            defs.push(def);
                            names_insert(&mut func_list, name);
                            assert(defs_of(defs@) =~= before.push(def@));
                        },
                        Err(err) => {
                            proof {
                                lemma_defs_rejected(
                                    items,
                                    i + 1,
                                    leading_defs(items, 0),
                                    table,
                                );
                            }
                            return Err(err);
                        },
                    }
                } else {
                    if defs.len() + 1 != vec.len() {
                        return Err(CompileError::InvalidShape);
                    }
                    return match parse_expr(def_or_exp, false, &def_arg_num) {
                        Ok(main) => Ok(Program { defs: defs, main: main, func_list: func_list }),
                        Err(err) => Err(err),
                    };
                }
                i = i + 1;
            }
            Err(CompileError::InvalidShape)
        },
        _ => Err(CompileError::InvalidShape),
    }
}

/// The first tree without the shape of a definition does not stand before
/// the place from which it is looked for, nor behind the end of the list.
pub proof fn lemma_leading_defs_bounds(items: Seq<TreeView>, i: int)
    requires
        0 <= i <= items.len(),
    ensures
        i <= leading_defs(items, i) <= items.len(),
    decreases items.len() - i,
{
    if i < items.len() && is_def_spec(items[i]) {
        lemma_leading_defs_bounds(items, i + 1);
    }
}

/// A rejection among the first `n` definitions rejects every longer prefix
/// in the same way.
pub proof fn lemma_defs_rejected(
    items: Seq<TreeView>,
    n: int,
    m: int,
    defs: Map<Seq<char>, u64>,
)
    requires
        0 <= n <= m <= items.len(),
        parse_defs_spec(items, n, defs) is Err,
    ensures
        parse_defs_spec(items, m, defs) == parse_defs_spec(items, n, defs),
    decreases m - n,
{
    if n < m {
        lemma_defs_rejected(items, n, m - 1, defs);
    }
}

} // verus!
