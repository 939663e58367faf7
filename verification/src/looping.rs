//! How a loop goes round and how a `break` leaves it: one pass through the
//! code of a loop either jumps back to its start, or ends the loop with the
//! value of a `break` in `rax`.

use vstd::prelude::*;
use crate::codegen::{label, label_name};
use crate::error::CompileErrorView;
use crate::induction::lemma_expr;
use crate::labels::lemma_labels_differ;
use crate::layout::compile_expr;
use crate::machine::{
    execute, find_ahead, lemma_run_in_second, lemma_run_resume, resume, run, step, Machine, Outcome,
};
use crate::semantics::{eval, Mode, Scope, Value};
use crate::soundness::{arrives, lemma_land, lemma_next, ready};
use crate::types::{ExprView, InstrView};

verus! {

/// The code of a loop around the code of its body, with the two labels that
/// the counter value `l` gives.
pub open spec fn loop_code(body: Seq<InstrView>, l: int) -> Seq<InstrView> {
    seq![InstrView::Label(label(label_name("loop"@, l)))] + body + seq![
        InstrView::Jmp(label(label_name("loop"@, l))),
        InstrView::Label(label(label_name("loopend"@, l + 1))),
    ]
}

/// A loop is compiled to the code of its body between its two labels; the
/// body is compiled behind the labels, with the end label of the loop as
/// the target of `break`.
pub proof fn loop_is_compiled_around_its_body(
    body: ExprView,
    si: int,
    env: Map<Seq<char>, i64>,
    l: int,
    brk: Seq<char>,
    funcs: Set<Seq<char>>,
)
    ensures
        compile_expr(ExprView::Loop(Box::new(body)), si, env, l, brk, funcs) == match compile_expr(
            body,
            si,
            env,
            l + 2,
            label_name("loopend"@, l + 1),
            funcs,
        ) {
            Ok((code, next)) => Ok::<(Seq<InstrView>, int), CompileErrorView>(
                (loop_code(code, l), next),
            ),
            Err(err) => Err(err),
        },
{
}

/// One pass through a loop: if control falls off the end of the body, it
/// leaves the loop's code for the start label, to go round again; if the
/// body leaves for the end label, as a `break` does, the loop is over and
/// the state is as the body has left it; if the body leaves for a label
/// that it does not define itself and that is not the end label, the loop
/// is left for that label.
pub proof fn loop_goes_round_until_break(body: Seq<InstrView>, l: int, m: Machine)
    requires
        l >= 0,
    ensures
        execute(body, m) matches Outcome::Done(m1) ==> execute(loop_code(body, l), m)
            == Outcome::Leaves(label_name("loop"@, l), m1),
        execute(body, m) matches Outcome::Leaves(name, m1) ==> (name == label_name(
            "loopend"@,
            l + 1,
        ) ==> execute(loop_code(body, l), m) == Outcome::Done(m1)),
        execute(body, m) matches Outcome::Leaves(name, m1) ==> (name != label_name(
            "loopend"@,
            l + 1,
        ) ==> execute(loop_code(body, l), m) == Outcome::Leaves(name, m1)),
{
    let start = label_name("loop"@, l);
    let end = label_name("loopend"@, l + 1);
    let head = seq![InstrView::Label(label(start))];
    let tail = seq![InstrView::Jmp(label(start)), InstrView::Label(label(end))];
    let code = loop_code(body, l);
    lemma_labels_differ("loop"@, l, "loopend"@, l + 1);
    // the start label does nothing, and the body runs as it does alone
    assert(run(head + body, 0, m) == run(head + body, 1, m)) by {
        assert((head + body)[0] == head[0]);
        assert(step(m, head[0]) == m);
    }
    lemma_run_in_second(head, body, 0, m);
    lemma_run_resume(head + body, tail, 0, m);
    let o = execute(body, m);
    assert(execute(code, m) == resume(o, tail));
    match o {
        Outcome::Done(m1) => {
            assert(find_ahead(tail, 2, start) == 2);
            assert(find_ahead(tail, 1, start) == 2);
            assert(run(tail, 0, m1) == Outcome::Leaves(start, m1));
        },
        Outcome::Leaves(name, m1) => {
            if name == end {
                lemma_land(o, tail, 1);
                assert(run(tail, 2, m1) == Outcome::Done(m1));
            } else {
                assert(find_ahead(tail, 2, name) == 2);
                assert(find_ahead(tail, 1, name) == 2);
                assert(find_ahead(tail, 0, name) == 2);
            }
        },
        _ => {},
    }
}

/// A `break` leaves for the end of its loop with its value: where the
/// operand of a `break` is simple and has a value, the code of the `break`
/// leaves for the break target with the word of the value in `rax`, the
/// stack pointer and `rdi` as before, and the scope in memory as evaluation
/// has left it.
pub proof fn break_leaves_with_its_value(
    a: ExprView,
    si: int,
    env: Map<Seq<char>, i64>,
    l: int,
    brk: Seq<char>,
    funcs: Set<Seq<char>>,
    scope: Scope,
    slots: Seq<int>,
    input: Value,
    m: Machine,
    mode: Mode,
)
    requires
        l >= 0,
        brk.len() > 0,
        ready(a, si, env, scope, slots, input, m, mode),
        compile_expr(a, si, env, l, brk, funcs) is Ok,
        eval(a, scope, input) is Ok,
    ensures
        compile_expr(ExprView::Break(Box::new(a)), si, env, l, brk, funcs) matches Ok(
            done,
        ) && execute(done.0, m) matches Outcome::Leaves(name, m1) && name == brk && arrives(
            m,
            m1,
            eval(a, scope, input)->Ok_0.0,
            scope,
            eval(a, scope, input)->Ok_0.1,
            slots,
            si,
            mode == Mode::Clean,
        ),
{
    let (code, _) = compile_expr(a, si, env, l, brk, funcs)->Ok_0;
    let jump = seq![InstrView::Jmp(label(brk))];
    lemma_expr(a, si, env, l, brk, funcs, scope, slots, input, m, mode);
    let m1 = execute(code, m)->Done_0;
    lemma_next(code, jump, m);
    assert(find_ahead(jump, 1, brk) == 1);
    assert(run(jump, 0, m1) == Outcome::Leaves(brk, m1));
}

} // verus!
