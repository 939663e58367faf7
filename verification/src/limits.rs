//! The size of a program, measured before it is compiled, so that the label
//! counter and the stack offsets are known to stay within machine words.

use vstd::prelude::*;
use crate::error::CompileError;
use crate::layout::{
    bindings_weight, compile_program, def_weight, defs_weight, program_fits, weight, weights,
};
use crate::printer::listing;
use crate::program::compile;
use crate::types::{bindings_view, defs_of, exprs_view, Definition, Expr, Program};

verus! {

/// The value at which a measured weight stops growing: one more than the
/// greatest weight that the compiler takes.
pub const WEIGHT_CAP: u64 = 0x4000_0000;

/// A weight as it is measured: itself, or the cap if it is greater.
pub open spec fn capped(n: int) -> int {
    if n >= WEIGHT_CAP {
        WEIGHT_CAP as int
    } else {
        n
    }
}

/// The sum of two measured weights, measured.
fn capped_add(a: u64, b: u64) -> (c: u64)
    requires
        a <= WEIGHT_CAP,
        b <= WEIGHT_CAP,
    ensures
        c == capped(a + b),
{
    let sum = a + b;
    if sum >= WEIGHT_CAP {
        WEIGHT_CAP
    } else {
        sum
    }
}

/// A length, measured.
fn capped_len(n: usize) -> (c: u64)
    ensures
        c == capped(n as int),
{
    if n >= 0x4000_0000 {
        WEIGHT_CAP
    } else {
        n as u64
    }
}

/// The weight of an expression, measured.
pub fn expr_weight(e: &Expr) -> (w: u64)
    ensures
        w == capped(weight(e@) as int),
    decreases e, 0nat,
{
    match e {
        Expr::Number(_) => 1,
        Expr::Boolean(_) => 1,
        Expr::Id(_) => 1,
        Expr::Let(bs, body) => {
            assert(e->Let_0 == *bs);
            let own = capped_add(capped_len(bs.len()), 2);
            let inner = capped_add(bindings_weight_of(bs), expr_weight(body));
            capped_add(own, inner)
        },
        Expr::UnOp(_, a) => capped_add(1, expr_weight(a)),
        Expr::BinOp(_, a, b) => capped_add(1, capped_add(expr_weight(a), expr_weight(b))),
        Expr::If(c, t, f) => capped_add(
            1,
            capped_add(expr_weight(c), capped_add(expr_weight(t), expr_weight(f))),
        ),
        Expr::Loop(a) => capped_add(1, expr_weight(a)),
        Expr::Break(a) => capped_add(1, expr_weight(a)),
        Expr::SetVar(_, a) => capped_add(1, expr_weight(a)),
        Expr::Block(es) => {
            assert(e->Block_0 == *es);
            capped_add(1, weights_of(es))
        },
        Expr::Call(_, args) => {
            assert(e->Call_1 == *args);
            let n = capped_len(args.len());
            capped_add(capped_add(capped_add(n, n), 3), weights_of(args))
        },
    }
}

/// The sum of the weights of a list of expressions, measured.
pub fn weights_of(es: &Vec<Expr>) -> (w: u64)
    ensures
        w == capped(weights(exprs_view(*es), es.len() as int) as int),
    decreases es, 1nat,
{
    let ghost esv = exprs_view(*es);
    let mut acc: u64 = 0;
    let mut i: usize = 0;
    while i < es.len()
        invariant
            i <= es.len(),
            esv == exprs_view(*es),
            esv.len() == es.len(),
            acc == capped(weights(esv, i as int) as int),
        decreases es.len() - i,
    {
        proof {
            vstd::std_specs::vec::axiom_vec_index_decreases(*es, i as int);
        }
        acc = capped_add(acc, expr_weight(&es[i]));
        i = i + 1;
    }
    acc
}

/// The sum of the weights of the right-hand sides of a list of bindings,
/// measured.
pub fn bindings_weight_of(bs: &Vec<(String, Expr)>) -> (w: u64)
    ensures
        w == capped(bindings_weight(bindings_view(*bs), bs.len() as int) as int),
    decreases bs, 1nat,
{
    let ghost bsv = bindings_view(*bs);
    let mut acc: u64 = 0;
    let mut i: usize = 0;
    while i < bs.len()
        invariant
            i <= bs.len(),
            bsv == bindings_view(*bs),
            bsv.len() == bs.len(),
            acc == capped(bindings_weight(bsv, i as int) as int),
        decreases bs.len() - i,
    {
        proof {
            vstd::std_specs::vec::axiom_vec_index_decreases(*bs, i as int);
        }
        acc = capped_add(acc, expr_weight(&bs[i].1));
        i = i + 1;
    }
    acc
}

/// The weight of a definition, measured.
pub fn definition_weight(d: &Definition) -> (w: u64)
    ensures
        w == capped(def_weight(d@) as int),
{
    match d {
        Definition::Fun(_, params, body) => capped_add(
            capped_add(capped_len(params.len()), 2),
            expr_weight(body),
        ),
    }
}

/// Whether a program is small enough for the compiler.
pub fn fits(p: &Program) -> (b: bool)
    ensures
        b == program_fits(p@),
{
    let ghost defs = defs_of(p.defs@);
    let mut acc: u64 = 0;
    let mut i: usize = 0;
    while i < p.defs.len()
        invariant
            i <= p.defs.len(),
            defs == defs_of(p.defs@),
            acc == capped(defs_weight(defs, i as int) as int),
        decreases p.defs.len() - i,
    {
        acc = capped_add(acc, definition_weight(&p.defs[i]));
        i = i + 1;
    }
    let total = capped_add(capped_add(acc, expr_weight(&p.main)), 2);
    total < WEIGHT_CAP
}

/// The assembly text of the definitions and of the main expression of a
/// program, or the reason for rejecting it; nothing if the program is too
/// large for the compiler.
pub fn try_compile(p: &Program) -> (r: Option<Result<(String, String), CompileError>>)
    ensures
        r is Some <==> program_fits(p@),
        r matches Some(done) ==> match compile_program(p@) {
            Ok((defs_code, main_code)) => done matches Ok(texts) && texts.0@ == listing(
                defs_code,
            ) && texts.1@ == listing(main_code),
            Err(err) => done matches Err(x) && x@ == err,
        },
{
    if fits(p) {
        Some(compile(p))
    } else {
        None
    }
}

} // verus!
