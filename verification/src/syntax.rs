//! The parse tree that the front end reads, and what it reads out of it: the
//! rules that turn a tree into an expression, a definition or a program, or
//! reject it.

use vstd::prelude::*;
use crate::error::CompileErrorView;
use crate::types::{DefinitionView, ExprView, Op1, Op2, ProgramView, GREATEST_VAL, LEAST_VAL};

verus! {

/// An atom of a parse tree: a symbol, an integer, or a floating-point
/// number, of which only its presence is kept.
#[derive(Debug, PartialEq, Eq)]
pub enum Atom {
    S(String),
    I(i64),
    F,
}

/// A parse tree: an atom or a list of parse trees.
#[derive(Debug, PartialEq, Eq)]
pub enum Tree {
    Atom(Atom),
    List(Vec<Tree>),
}

/// A parse tree as a mathematical value.
pub enum TreeView {
    Sym(Seq<char>),
    Int(int),
    Float,
    List(Seq<TreeView>),
}

/// The mathematical value of a parse tree.
pub open spec fn sexp_view(s: Tree) -> TreeView
    decreases s,
{
    match s {
        Tree::Atom(Atom::S(x)) => TreeView::Sym(x@),
        Tree::Atom(Atom::I(n)) => TreeView::Int(n as int),
        Tree::Atom(Atom::F) => TreeView::Float,
        Tree::List(items) => TreeView::List(sexps_view(items)),
    }
}

/// The mathematical values of a list of parse trees, in order.
pub open spec fn sexps_view(items: Vec<Tree>) -> Seq<TreeView>
    decreases items,
{
    Seq::new(
        items.len() as nat,
        |i: int|
            if 0 <= i < items.len() {
                sexp_view(items[i])
            } else {
                TreeView::Float
            },
    )
}

impl View for Tree {
    type V = TreeView;

    open spec fn view(&self) -> TreeView {
        sexp_view(*self)
    }
}

/// What reading an expression gives.
pub type Parsed = Result<ExprView, CompileErrorView>;

/// Whether `name` is a reserved word: one that no program may bind, declare
/// or call.
pub open spec fn is_reserved(name: Seq<char>) -> bool {
    ||| name == "let"@
    ||| name == "block"@
    ||| name == "set!"@
    ||| name == "loop"@
    ||| name == "break"@
    ||| name == "if"@
    ||| name == "input"@
    ||| name == "+"@
    ||| name == "-"@
    ||| name == "*"@
    ||| name == "="@
    ||| name == "true"@
    ||| name == "false"@
    ||| name == ">"@
    ||| name == "<"@
    ||| name == ">="@
    ||| name == "<="@
    ||| name == "fun"@
    ||| name == "print"@
    ||| name == "sub1"@
    ||| name == "add1"@
    ||| name == "isnum"@
    ||| name == "isbool"@
}

/// The unary operator that a keyword names, if it names one.
pub open spec fn unary_op(head: Seq<char>) -> Option<Op1> {
    if head == "add1"@ {
        Some(Op1::Add1)
    } else if head == "sub1"@ {
        Some(Op1::Sub1)
    } else if head == "isnum"@ {
        Some(Op1::IsNum)
    } else if head == "isbool"@ {
        Some(Op1::IsBool)
    } else if head == "print"@ {
        Some(Op1::Print)
    } else {
        None
    }
}

/// The binary operator that a keyword names, if it names one.
pub open spec fn binary_op(head: Seq<char>) -> Option<Op2> {
    if head == "+"@ {
        Some(Op2::Plus)
    } else if head == "-"@ {
        Some(Op2::Minus)
    } else if head == "*"@ {
        Some(Op2::Times)
    } else if head == "="@ {
        Some(Op2::Equal)
    } else if head == ">="@ {
        Some(Op2::GreaterEqual)
    } else if head == "<="@ {
        Some(Op2::LessEqual)
    } else if head == ">"@ {
        Some(Op2::Greater)
    } else if head == "<"@ {
        Some(Op2::Less)
    } else {
        None
    }
}

/// Whether one of the first `n` bindings binds the name `x`.
pub open spec fn binds(bs: Seq<(Seq<char>, ExprView)>, n: int, x: Seq<char>) -> bool {
    exists|j: int| 0 <= j < n && j < bs.len() && (#[trigger] bs[j]).0 == x
}

/// What reading the tree `s` as an expression gives.
///
/// `is_def` says that the expression stands in a function body, where
/// `input` is rejected; `defs` maps each declared function name to its
/// arity. A list is read by its first element: a keyword with operands of
/// the keyword's number and shape is that form; any other list that starts
/// with a symbol is a call, which is rejected if the symbol is reserved or
/// not declared, or if the number of arguments is not the declared arity.
/// Sub-trees are read from left to right, and the first rejection met is the
/// outcome.
pub open spec fn parse_expr_spec(s: TreeView, is_def: bool, defs: Map<Seq<char>, u64>) -> Parsed
    decreases s, 0nat,
{
    match s {
        TreeView::Int(n) => {
            if n < LEAST_VAL || n > GREATEST_VAL {
                Err(CompileErrorView::NumberOutOfBounds)
            } else {
                Ok(ExprView::Number(n))
            }
        },
        TreeView::Sym(x) => {
            if x == "true"@ {
                Ok(ExprView::Boolean(true))
            } else if x == "false"@ {
                Ok(ExprView::Boolean(false))
            } else if x == "input"@ && is_def {
                Err(CompileErrorView::InputInFunction)
            } else {
                Ok(ExprView::Id(x))
            }
        },
        TreeView::Float => Err(CompileErrorView::InvalidShape),
        TreeView::List(items) => {
            if items.len() == 0 {
                Err(CompileErrorView::InvalidShape)
            } else {
                match items[0] {
                    TreeView::Sym(head) => {
                        if unary_op(head) is Some && items.len() == 2 {
                            match parse_expr_spec(items[1], is_def, defs) {
                                Err(err) => Err(err),
                                Ok(a) => Ok(ExprView::UnOp(unary_op(head)->Some_0, Box::new(a))),
                            }
                        } else if binary_op(head) is Some && items.len() == 3 {
                            match parse_expr_spec(items[1], is_def, defs) {
                                Err(err) => Err(err),
                                Ok(a) => match parse_expr_spec(items[2], is_def, defs) {
                                    Err(err) => Err(err),
                                    Ok(b) => Ok(
                                        ExprView::BinOp(
                                            binary_op(head)->Some_0,
                                            Box::new(a),
                                            Box::new(b),
                                        ),
                                    ),
                                },
                            }
                        } else if head == "if"@ && items.len() == 4 {
                            match parse_expr_spec(items[1], is_def, defs) {
                                Err(err) => Err(err),
                                Ok(c) => match parse_expr_spec(items[2], is_def, defs) {
                                    Err(err) => Err(err),
                                    Ok(t) => match parse_expr_spec(items[3], is_def, defs) {
                                        Err(err) => Err(err),
                                        Ok(f) => Ok(
                                            ExprView::If(Box::new(c), Box::new(t), Box::new(f)),
                                        ),
                                    },
                                },
                            }
                        } else if head == "loop"@ && items.len() == 2 {
                            match parse_expr_spec(items[1], is_def, defs) {
                                Err(err) => Err(err),
                                Ok(a) => Ok(ExprView::Loop(Box::new(a))),
                            }
                        } else if head == "let"@ && items.len() == 3 && items[1] is List {
                            let binds = items[1]->List_0;
                            match parse_bindings_spec(binds, binds.len() as int, is_def, defs) {
                                Err(err) => Err(err),
                                Ok(bs) => {
                                    if bs.len() == 0 {
                                        Err(CompileErrorView::InvalidShape)
                                    } else {
                                        match parse_expr_spec(items[2], is_def, defs) {
                                            Err(err) => Err(err),
                                            Ok(body) => Ok(ExprView::Let(bs, Box::new(body))),
                                        }
                                    }
                                },
                            }
                        } else if head == "block"@ {
                            match parse_tail_spec(items, items.len() as int, is_def, defs) {
                                Err(err) => Err(err),
                                Ok(es) => {
                                    if es.len() == 0 {
                                        Err(CompileErrorView::InvalidShape)
                                    } else {
                                        Ok(ExprView::Block(es))
                                    }
                                },
                            }
                        } else if head == "set!"@ && items.len() == 3 && items[1] is Sym {
                            match parse_expr_spec(items[2], is_def, defs) {
                                Err(err) => Err(err),
                                Ok(a) => Ok(ExprView::SetVar(items[1]->Sym_0, Box::new(a))),
                            }
                        } else if head == "break"@ && items.len() == 2 {
                            match parse_expr_spec(items[1], is_def, defs) {
                                Err(err) => Err(err),
                                Ok(a) => Ok(ExprView::Break(Box::new(a))),
                            }
                        } else if is_reserved(head) {
                            Err(CompileErrorView::ReservedWord)
                        } else if !defs.contains_key(head) {
                            Err(CompileErrorView::UndeclaredFunction)
                        } else if items.len() - 1 != defs[head] {
                            Err(CompileErrorView::ArityMismatch)
                        } else {
                            match parse_tail_spec(items, items.len() as int, is_def, defs) {
                                Err(err) => Err(err),
                                Ok(args) => Ok(ExprView::Call(head, args)),
                            }
                        }
                    },
                    _ => Err(CompileErrorView::InvalidShape),
                }
            }
        },
    }
}

/// What reading the elements of a list behind its first, up to the `n`-th,
/// gives: the expressions in order, or the first rejection.
pub open spec fn parse_tail_spec(
    items: Seq<TreeView>,
    n: int,
    is_def: bool,
    defs: Map<Seq<char>, u64>,
) -> Result<Seq<ExprView>, CompileErrorView>
    decreases items, n,
{
    if n <= 1 || n > items.len() {
        Ok(Seq::empty())
    } else {
        match parse_tail_spec(items, n - 1, is_def, defs) {
            Err(err) => Err(err),
            Ok(es) => match parse_expr_spec(items[n - 1], is_def, defs) {
                Err(err) => Err(err),
                Ok(e) => Ok(es.push(e)),
            },
        }
    }
}

/// What reading a tree as one binding of a `let` gives: the tree must be a
/// list of a symbol that is not reserved and one more tree, which is read as
/// an expression.
pub open spec fn parse_bind_spec(s: TreeView, is_def: bool, defs: Map<Seq<char>, u64>) -> Result<
    (Seq<char>, ExprView),
    CompileErrorView,
>
    decreases s, 1nat,
{
    match s {
        TreeView::List(pair) => {
            if pair.len() == 2 && pair[0] is Sym {
                if is_reserved(pair[0]->Sym_0) {
                    Err(CompileErrorView::ReservedWord)
                } else {
                    match parse_expr_spec(pair[1], is_def, defs) {
                        Err(err) => Err(err),
                        Ok(e) => Ok((pair[0]->Sym_0, e)),
                    }
                }
            } else {
                Err(CompileErrorView::InvalidShape)
            }
        },
        _ => Err(CompileErrorView::InvalidShape),
    }
}

/// What reading the first `n` bindings of a `let` gives: the bindings in
/// order, or the first rejection. A binding whose name an earlier binding of
/// the same `let` has is rejected.
pub open spec fn parse_bindings_spec(
    items: Seq<TreeView>,
    n: int,
    is_def: bool,
    defs: Map<Seq<char>, u64>,
) -> Result<Seq<(Seq<char>, ExprView)>, CompileErrorView>
    decreases items, n,
{
    if n <= 0 || n > items.len() {
        Ok(Seq::empty())
    } else {
        match parse_bindings_spec(items, n - 1, is_def, defs) {
            Err(err) => Err(err),
            Ok(bs) => match parse_bind_spec(items[n - 1], is_def, defs) {
                Err(err) => Err(err),
                Ok(b) => {
                    if binds(bs, bs.len() as int, b.0) {
                        Err(CompileErrorView::DuplicateBinding)
                    } else {
                        Ok(bs.push(b))
                    }
                },
            },
        }
    }
}

/// Whether a tree has the shape of a definition: a list of the keyword
/// `fun`, a list, and one more tree.
pub open spec fn is_def_spec(s: TreeView) -> bool {
    s matches TreeView::List(items) && items.len() == 3 && items[0] == TreeView::Sym("fun"@)
        && items[1] is List
}

/// The list that holds the name and the parameters of a definition.
pub open spec fn signature_of(s: TreeView) -> Seq<TreeView> {
    s->List_0[1]->List_0
}

/// The tree of the body of a definition.
pub open spec fn body_of(s: TreeView) -> TreeView {
    s->List_0[2]
}

/// What reading the first `n` elements of a signature behind the name
/// gives: the parameter names in order; each must be a symbol that is not
/// reserved.
pub open spec fn parse_params_spec(sig: Seq<TreeView>, n: int) -> Result<
    Seq<Seq<char>>,
    CompileErrorView,
>
    decreases n,
{
    if n <= 1 || n > sig.len() {
        Ok(Seq::empty())
    } else {
        match parse_params_spec(sig, n - 1) {
            Err(err) => Err(err),
            Ok(params) => match sig[n - 1] {
                TreeView::Sym(x) => {
                    if is_reserved(x) {
                        Err(CompileErrorView::ReservedWord)
                    } else {
                        Ok(params.push(x))
                    }
                },
                _ => Err(CompileErrorView::InvalidShape),
            },
        }
    }
}

/// What reading a tree as a definition gives: the definition and its name.
/// The tree must have the shape of a definition; its signature must start
/// with a symbol that is not reserved, the name, and go on with the
/// parameters; its body is read as an expression inside a function.
pub open spec fn parse_definition_spec(s: TreeView, defs: Map<Seq<char>, u64>) -> Result<
    (DefinitionView, Seq<char>),
    CompileErrorView,
> {
    if !is_def_spec(s) {
        Err(CompileErrorView::InvalidShape)
    } else {
        let sig = signature_of(s);
        if sig.len() == 0 {
            Err(CompileErrorView::InvalidShape)
        } else {
            match sig[0] {
                TreeView::Sym(name) => {
                    if is_reserved(name) {
                        Err(CompileErrorView::ReservedWord)
                    } else {
                        match parse_params_spec(sig, sig.len() as int) {
                            Err(err) => Err(err),
                            Ok(params) => match parse_expr_spec(body_of(s), true, defs) {
                                Err(err) => Err(err),
                                Ok(body) => Ok((DefinitionView::Fun(name, params, body), name)),
                            },
                        }
                    }
                },
                _ => Err(CompileErrorView::InvalidShape),
            }
        }
    }
}

/// The arity table after one top-level tree was seen: a tree with the shape
/// of a definition adds its name with the number of its parameters, in place
/// of an earlier entry for that name, and is rejected if its signature does
/// not start with a symbol; any other tree leaves the table as it is.
pub open spec fn arity_after(table: Map<Seq<char>, u64>, s: TreeView) -> Result<
    Map<Seq<char>, u64>,
    CompileErrorView,
> {
    if is_def_spec(s) {
        let sig = signature_of(s);
        if sig.len() == 0 {
            Err(CompileErrorView::InvalidShape)
        } else {
            match sig[0] {
                TreeView::Sym(name) => Ok(table.insert(name, (sig.len() - 1) as u64)),
                _ => Err(CompileErrorView::InvalidShape),
            }
        }
    } else {
        Ok(table)
    }
}

/// The arity table after the first `n` top-level trees were seen.
pub open spec fn arities_spec(items: Seq<TreeView>, n: int) -> Result<
    Map<Seq<char>, u64>,
    CompileErrorView,
>
    decreases n,
{
    if n <= 0 || n > items.len() {
        Ok(Map::empty())
    } else {
        match arities_spec(items, n - 1) {
            Err(err) => Err(err),
            Ok(table) => arity_after(table, items[n - 1]),
        }
    }
}

/// The number of top-level trees, from the `i`-th on, that stand before the
/// first one without the shape of a definition.
pub open spec fn leading_defs(items: Seq<TreeView>, i: int) -> int
    decreases items.len() - i,
{
    if 0 <= i < items.len() && is_def_spec(items[i]) {
        leading_defs(items, i + 1)
    } else {
        i
    }
}

/// What reading the first `n` top-level trees as definitions gives: the
/// definitions in order and the set of their names.
pub open spec fn parse_defs_spec(items: Seq<TreeView>, n: int, defs: Map<Seq<char>, u64>) -> Result<
    (Seq<DefinitionView>, Set<Seq<char>>),
    CompileErrorView,
>
    decreases n,
{
    if n <= 0 || n > items.len() {
        Ok((Seq::empty(), Set::empty()))
    } else {
        match parse_defs_spec(items, n - 1, defs) {
            Err(err) => Err(err),
            Ok((ds, names)) => match parse_definition_spec(items[n - 1], defs) {
                Err(err) => Err(err),
                Ok((d, name)) => Ok((ds.push(d), names.insert(name))),
            },
        }
    }
}

/// What reading a tree as a program gives.
///
/// The tree must be a list. A first pass collects the arity of every
/// definition in it, so that a call may stand before the definition it
/// names. A second pass reads the definitions that stand before the first
/// tree of another shape, and that tree as the main expression; it must be
/// the last, and there must be one.
pub open spec fn parse_program_spec(s: TreeView) -> Result<ProgramView, CompileErrorView> {
    match s {
        TreeView::List(items) => {
            match arities_spec(items, items.len() as int) {
                Err(err) => Err(err),
                Ok(table) => {
                    let k = leading_defs(items, 0);
                    match parse_defs_spec(items, k, table) {
                        Err(err) => Err(err),
                        Ok((ds, names)) => {
                            if k + 1 != items.len() {
                                Err(CompileErrorView::InvalidShape)
                            } else {
                                match parse_expr_spec(items[k], false, table) {
                                    Err(err) => Err(err),
                                    Ok(main) => Ok(
                                        ProgramView { defs: ds, main: main, func_list: names },
                                    ),
                                }
                            }
                        },
                    }
                },
            }
        },
        _ => Err(CompileErrorView::InvalidShape),
    }
}

} // verus!
