//! The way from source text to a parse tree, through the `sexp` crate.
//!
//! What `sexp::parse` reads out of a text is not proved here. The tree that
//! it gives for a text is given a name, and the contract of the reader says
//! that it returns the tree of that name.

use vstd::prelude::*;
use crate::syntax::{Atom, Tree, TreeView};

verus! {

#[verifier::external_type_specification]
#[verifier::external_body]
pub struct ExSexp(sexp::Sexp);

/// The parse tree that `sexp::parse` reads out of a text, if it reads one.
pub uninterp spec fn parsed_tree(text: Seq<char>) -> Option<TreeView>;

/// The parse tree with the atoms and lists of a tree of the `sexp` crate,
/// in the same order; of a floating-point atom only its presence is kept.
#[verifier::external_body]
fn tree_from(s: sexp::Sexp) -> Tree {
    match s {
        sexp::Sexp::Atom(sexp::Atom::S(name)) => Tree::Atom(Atom::S(name)),
        sexp::Sexp::Atom(sexp::Atom::I(n)) => Tree::Atom(Atom::I(n)),
        sexp::Sexp::Atom(sexp::Atom::F(_)) => Tree::Atom(Atom::F),
        sexp::Sexp::List(items) => Tree::List(items.into_iter().map(tree_from).collect()),
    }
}

/// `sexp::parse`: the tree that it reads out of `text`, taken over part by
/// part, or nothing where it reports an error.
#[verifier::external_body]
pub(crate) fn read_tree(text: &str) -> (tree: Option<Tree>)
    ensures
        match tree {
            Some(t) => parsed_tree(text@) == Some(t@),
            None => parsed_tree(text@) is None,
        },
{
    sexp::parse(text).ok().map(tree_from)
}

/// The parse tree of a source text, or nothing where the text is no
/// s-expression.
pub fn parse_source(text: &str) -> (tree: Option<Tree>)
    ensures
        match tree {
            Some(t) => parsed_tree(text@) == Some(t@),
            None => parsed_tree(text@) is None,
        },
{
    read_tree(text)
}

} // verus!
