//! The emitted code computes what the expression means: for the simple
//! expressions, running the code that the compiler gives leaves the value of
//! the expression in `rax`, or leaves for the trampoline of the fault that
//! the expression ends in.

use vstd::prelude::*;
use crate::codegen::{imm, number_check_code, rax, slot, stack, tag_test_code};
use crate::compiler::STACK_INDEX_LIMIT;
use crate::error::CompileErrorView;
use crate::labelling::{
    lemma_branch_codes, lemma_labels, lemma_labels_bindings, lemma_labels_block, lemma_labels_miss,
    lemma_labels_safe,
};
use crate::layout::{
    bindings_weight, compile_bindings, compile_block, compile_expr, print_code, weights,
};
use crate::machine::{execute, run, wrap, Machine, Outcome};
use crate::semantics::{
    assign, condition_mode, eval, eval_bindings, eval_block, in_range, legal,
    lemma_condition_is_boolean, nearest, operand_mode, simple, simple_all, simple_bindings, tagged,
    Mode, Scope, Value,
};
use crate::soundness::{
    arith_finish, arith_result, at_entry, compared_with_false, equal_tail, extended_slots,
    first_operand, guard_code, kept, laid_out, lemma_abort, lemma_arith_finish,
    lemma_branch_code_safe, lemma_branch_run, lemma_equal_tail, lemma_guard, lemma_kept_chain,
    lemma_laid_out_by_names, lemma_laid_out_higher, lemma_nearest_bounds, lemma_nearest_by_names,
    lemma_nearest_push, lemma_next, lemma_not_in_extended, lemma_number, lemma_operand_codes,
    lemma_operator_parts_safe, lemma_ordered_tail, lemma_ordered_tail_safe, lemma_print, lemma_save,
    lemma_slot_free, lemma_step_tail, lemma_step_tail_safe, lemma_tag_test, lemma_then, ordered,
    ordered_tail, ready, safe, same_names, second_operand, sound, step_tail, stored, trap_label,
};
use crate::types::{ExprView, InstrView, Op1, Op2};

verus! {

/// The code of a simple expression, compiled at a counter value that is not
/// negative, defines neither trampoline, and the counter does not go down.
pub proof fn lemma_code_safe(
    e: ExprView,
    si: int,
    env: Map<Seq<char>, i64>,
    l: int,
    brk: Seq<char>,
    funcs: Set<Seq<char>>,
    mode: Mode,
)
    requires
        l >= 0,
        simple(e, mode),
        compile_expr(e, si, env, l, brk, funcs) is Ok,
    ensures
        safe(compile_expr(e, si, env, l, brk, funcs)->Ok_0.0),
        l <= compile_expr(e, si, env, l, brk, funcs)->Ok_0.1,
{
    lemma_labels(e, si, env, l, brk, funcs, mode);
    let (code, end) = compile_expr(e, si, env, l, brk, funcs)->Ok_0;
    lemma_labels_safe(code, l, end);
}

/// The code of a literal, or of an identifier, computes its value.
#[verifier::rlimit(60)]
pub proof fn lemma_leaf(
    e: ExprView,
    si: int,
    env: Map<Seq<char>, i64>,
    l: int,
    brk: Seq<char>,
    funcs: Set<Seq<char>>,
    scope: Scope,
    slots: Seq<int>,
    input: Value,
    m: Machine,
    mode: Mode,
)
    requires
        e is Number || e is Boolean || e is Id,
        ready(e, si, env, scope, slots, input, m, mode),
        compile_expr(e, si, env, l, brk, funcs) is Ok,
    ensures
        sound(
            compile_expr(e, si, env, l, brk, funcs)->Ok_0.0,
            m,
            eval(e, scope, input),
            scope,
            slots,
            si,
            mode == Mode::Clean,
        ),
{
    let code = compile_expr(e, si, env, l, brk, funcs)->Ok_0.0;
    match e {
        ExprView::Number(n) => {
            lemma_number(n, m);
        },
        ExprView::Boolean(b) => {
            assert(wrap(3) == 3 && wrap(1) == 1);
            reveal_with_fuel(run, 2);
        },
        ExprView::Id(x) => {
            if x == "input"@ {
                reveal_with_fuel(run, 3);
            } else {
                lemma_nearest_bounds(scope, x);
                assert(env.contains_key(x));
                let k = nearest(scope, x);
                assert(legal(scope[k].1));
                reveal_with_fuel(run, 2);
            }
        },
        _ => {},
    }
}

/// The code of a simple expression computes what the expression means:
/// run from a state that holds the scope, it leaves the value of the
/// expression in `rax`, or leaves for the trampoline of the fault that the
/// expression ends in.
pub proof fn lemma_expr(
    e: ExprView,
    si: int,
    env: Map<Seq<char>, i64>,
    l: int,
    brk: Seq<char>,
    funcs: Set<Seq<char>>,
    scope: Scope,
    slots: Seq<int>,
    input: Value,
    m: Machine,
    mode: Mode,
)
    requires
        l >= 0,
        ready(e, si, env, scope, slots, input, m, mode),
        compile_expr(e, si, env, l, brk, funcs) is Ok,
    ensures
        sound(
            compile_expr(e, si, env, l, brk, funcs)->Ok_0.0,
            m,
            eval(e, scope, input),
            scope,
            slots,
            si,
            mode == Mode::Clean,
        ),
    decreases e, 1nat,
{
    match e {
        ExprView::SetVar(_, _) => lemma_set_var(e, si, env, l, brk, funcs, scope, slots, input, m, mode),
        ExprView::UnOp(op, _) => {
            if op == Op1::IsNum || op == Op1::IsBool {
                lemma_tag(e, si, env, l, brk, funcs, scope, slots, input, m, mode);
            } else if op == Op1::Print {
                lemma_printed(e, si, env, l, brk, funcs, scope, slots, input, m, mode);
            } else {
                lemma_unop(e, si, env, l, brk, funcs, scope, slots, input, m, mode);
            }
        },
        ExprView::BinOp(op, _, _) => {
            if op == Op2::Equal {
                lemma_equal(e, si, env, l, brk, funcs, scope, slots, input, m, mode);
            } else if ordered(op) {
                lemma_ordered(e, si, env, l, brk, funcs, scope, slots, input, m, mode);
            } else {
                lemma_arith(e, si, env, l, brk, funcs, scope, slots, input, m, mode);
            }
        },
        ExprView::If(_, _, _) => lemma_if(e, si, env, l, brk, funcs, scope, slots, input, m, mode),
        ExprView::Block(es) => {
            lemma_block(
                es,
                es.len() as int,
                si,
                env,
                l,
                brk,
                funcs,
                scope,
                slots,
                input,
                m,
                mode,
            );
        },
        ExprView::Let(_, _) => lemma_let(e, si, env, l, brk, funcs, scope, slots, input, m, mode),
        _ => lemma_leaf(e, si, env, l, brk, funcs, scope, slots, input, m, mode),
    }
}

/// The code of an assignment computes the value and stores it in the
/// innermost binding of the name.
#[verifier::rlimit(60)]
pub proof fn lemma_set_var(
    e: ExprView,
    si: int,
    env: Map<Seq<char>, i64>,
    l: int,
    brk: Seq<char>,
    funcs: Set<Seq<char>>,
    scope: Scope,
    slots: Seq<int>,
    input: Value,
    m: Machine,
    mode: Mode,
)
    requires
        e is SetVar,
        l >= 0,
        ready(e, si, env, scope, slots, input, m, mode),
        compile_expr(e, si, env, l, brk, funcs) is Ok,
    ensures
        sound(
            compile_expr(e, si, env, l, brk, funcs)->Ok_0.0,
            m,
            eval(e, scope, input),
            scope,
            slots,
            si,
            mode == Mode::Clean,
        ),
    decreases e, 0nat,
{
    let x = e->SetVar_0;
    let a = *e->SetVar_1;
    let ca = compile_expr(a, si, env, l, brk, funcs)->Ok_0.0;
    let store = seq![InstrView::IMov(stack(env[x] as int), rax())];
    lemma_expr(a, si, env, l, brk, funcs, scope, slots, input, m, mode);
    lemma_then(ca, store, m);
    match eval(a, scope, input) {
        Err(fault) => {},
        Ok((v, scope1)) => {
            let m1 = execute(ca, m)->Done_0;
            reveal_with_fuel(run, 2);
            let m2 = execute(store, m1)->Done_0;
            let k = nearest(scope, x);
            lemma_nearest_bounds(scope, x);
            lemma_nearest_by_names(scope, scope1, x);
            let scope2 = assign(scope1, x, v);
            assert(stored(scope2, slots, m2)) by {
                assert forall|j: int| 0 <= j < scope2.len() implies legal(
                    (#[trigger] scope2[j]).1,
                ) && m2.mem[m2.rsp - slots[j]] == tagged(scope2[j].1) by {
                    if j != k {
                        assert(scope2[j] == scope1[j]);
                        assert(slots[j] != slots[k]);
                    }
                }
            }
            assert(kept(m, m2, si, slots)) by {
                assert forall|off: int|
                    off < si * 8 && !slots.contains(off) implies #[trigger] m2.mem[m.rsp - off]
                    == m.mem[m.rsp - off] by {
                    assert(slots[k] != off);
                    assert(m1.mem[m.rsp - off] == m.mem[m.rsp - off]);
                }
            }
            assert(same_names(scope, scope2)) by {
                assert forall|j: int| 0 <= j < scope.len() implies (#[trigger] scope[j]).0
                    == scope2[j].0 by {
                    if j != k {
                        assert(scope2[j] == scope1[j]);
                    }
                }
            }
        },
    }
}

/// The code of `add1` or `sub1` computes the number next to its operand,
/// or leaves for the trampoline of the fault.
pub proof fn lemma_unop(
    e: ExprView,
    si: int,
    env: Map<Seq<char>, i64>,
    l: int,
    brk: Seq<char>,
    funcs: Set<Seq<char>>,
    scope: Scope,
    slots: Seq<int>,
    input: Value,
    m: Machine,
    mode: Mode,
)
    requires
        e is UnOp,
        e->UnOp_0 == Op1::Add1 || e->UnOp_0 == Op1::Sub1,
        l >= 0,
        ready(e, si, env, scope, slots, input, m, mode),
        compile_expr(e, si, env, l, brk, funcs) is Ok,
    ensures
        sound(
            compile_expr(e, si, env, l, brk, funcs)->Ok_0.0,
            m,
            eval(e, scope, input),
            scope,
            slots,
            si,
            mode == Mode::Clean,
        ),
    decreases e, 0nat,
{
    let op = e->UnOp_0;
    let a = *e->UnOp_1;
    let ca = compile_expr(a, si, env, l, brk, funcs)->Ok_0.0;
    let up = op == Op1::Add1;
    let arith = seq![
        if up {
            InstrView::IAdd(rax(), imm(2))
        } else {
            InstrView::ISub(rax(), imm(2))
        },
    ];
    let check = number_check_code();
    let jump = seq![InstrView::OverFlow()];
    let tail = step_tail(up);
    let code = compile_expr(e, si, env, l, brk, funcs)->Ok_0.0;
    assert(code == ca + check + arith + jump);
    vstd::seq_lib::lemma_concat_associative(ca + check, arith, jump);
    vstd::seq_lib::lemma_concat_associative(ca, check, arith + jump);
    vstd::seq_lib::lemma_concat_associative(check, arith, jump);
    assert(code == ca + tail);
    lemma_expr(a, si, env, l, brk, funcs, scope, slots, input, m, mode);
    lemma_step_tail_safe(up);
    match eval(a, scope, input) {
        Err(fault) => {
            lemma_abort(ca, tail, m);
        },
        Ok((v, scope1)) => {
            let m1 = execute(ca, m)->Done_0;
            lemma_step_tail(up, m1, v);
            lemma_next(ca, tail, m);
        },
    }
}

/// The code of `print` computes its operand, hands the value to the
/// runtime, and has it for its own value.
pub proof fn lemma_printed(
    e: ExprView,
    si: int,
    env: Map<Seq<char>, i64>,
    l: int,
    brk: Seq<char>,
    funcs: Set<Seq<char>>,
    scope: Scope,
    slots: Seq<int>,
    input: Value,
    m: Machine,
    mode: Mode,
)
    requires
        e is UnOp,
        e->UnOp_0 == Op1::Print,
        l >= 0,
        ready(e, si, env, scope, slots, input, m, mode),
        compile_expr(e, si, env, l, brk, funcs) is Ok,
    ensures
        sound(
            compile_expr(e, si, env, l, brk, funcs)->Ok_0.0,
            m,
            eval(e, scope, input),
            scope,
            slots,
            si,
            mode == Mode::Clean,
        ),
    decreases e, 0nat,
{
    let a = *e->UnOp_1;
    let ca = compile_expr(a, si, env, l, brk, funcs)->Ok_0.0;
    let tail = print_code(si);
    let code = compile_expr(e, si, env, l, brk, funcs)->Ok_0.0;
    assert(code == ca + tail);
    lemma_expr(a, si, env, l, brk, funcs, scope, slots, input, m, mode);
    lemma_print(m, si);
    match eval(a, scope, input) {
        Err(fault) => {
            lemma_abort(ca, tail, m);
        },
        Ok((v, scope1)) => {
            let m1 = execute(ca, m)->Done_0;
            lemma_print(m1, si);
            lemma_next(ca, tail, m);
            let m2 = execute(tail, m1)->Done_0;
            assert(stored(scope1, slots, m2)) by {
                lemma_laid_out_by_names(scope, scope1, slots, env, si);
                assert forall|k: int| 0 <= k < scope1.len() implies legal(
                    (#[trigger] scope1[k]).1,
                ) && m2.mem[m2.rsp - slots[k]] == tagged(scope1[k].1) by {
                    assert(slots[k] < si * 8);
                    assert(m2.mem[m1.rsp - slots[k]] == m1.mem[m1.rsp - slots[k]]);
                }
            }
            assert(kept(m, m2, si, slots)) by {
                assert forall|off: int|
                    off < si * 8 && !slots.contains(off) implies #[trigger] m2.mem[m.rsp - off]
                    == m.mem[m.rsp - off] by {
                    assert(m2.mem[m1.rsp - off] == m1.mem[m1.rsp - off]);
                    assert(m1.mem[m.rsp - off] == m.mem[m.rsp - off]);
                }
            }
        },
    }
}

/// The code of `isnum` or `isbool` computes whether its operand is a number
/// or a boolean.
pub proof fn lemma_tag(
    e: ExprView,
    si: int,
    env: Map<Seq<char>, i64>,
    l: int,
    brk: Seq<char>,
    funcs: Set<Seq<char>>,
    scope: Scope,
    slots: Seq<int>,
    input: Value,
    m: Machine,
    mode: Mode,
)
    requires
        e is UnOp,
        e->UnOp_0 == Op1::IsNum || e->UnOp_0 == Op1::IsBool,
        l >= 0,
        ready(e, si, env, scope, slots, input, m, mode),
        compile_expr(e, si, env, l, brk, funcs) is Ok,
    ensures
        sound(
            compile_expr(e, si, env, l, brk, funcs)->Ok_0.0,
            m,
            eval(e, scope, input),
            scope,
            slots,
            si,
            mode == Mode::Clean,
        ),
    decreases e, 0nat,
{
    let op = e->UnOp_0;
    let a = *e->UnOp_1;
    let (ca, l1) = compile_expr(a, si, env, l, brk, funcs)->Ok_0;
    let test = tag_test_code(l1, op == Op1::IsBool);
    let code = compile_expr(e, si, env, l, brk, funcs)->Ok_0.0;
    assert(code == ca + test);
    lemma_expr(a, si, env, l, brk, funcs, scope, slots, input, m, operand_mode(mode));
    lemma_code_safe(a, si, env, l, brk, funcs, operand_mode(mode));
    lemma_branch_code_safe(Op2::Less, l1, op == Op1::IsBool);
    lemma_then(ca, test, m);
    match eval(a, scope, input) {
        Err(fault) => {},
        Ok((v, scope1)) => {
            let m1 = execute(ca, m)->Done_0;
            lemma_tag_test(l1, op == Op1::IsBool, m1);
        },
    }
}

/// The code of `+`, `-` or `*` computes the number that the operator gives
/// of its operands, or leaves for the trampoline of the fault.
pub proof fn lemma_arith(
    e: ExprView,
    si: int,
    env: Map<Seq<char>, i64>,
    l: int,
    brk: Seq<char>,
    funcs: Set<Seq<char>>,
    scope: Scope,
    slots: Seq<int>,
    input: Value,
    m: Machine,
    mode: Mode,
)
    requires
        e is BinOp,
        e->BinOp_0 == Op2::Plus || e->BinOp_0 == Op2::Minus || e->BinOp_0 == Op2::Times,
        l >= 0,
        ready(e, si, env, scope, slots, input, m, mode),
        compile_expr(e, si, env, l, brk, funcs) is Ok,
    ensures
        sound(
            compile_expr(e, si, env, l, brk, funcs)->Ok_0.0,
            m,
            eval(e, scope, input),
            scope,
            slots,
            si,
            mode == Mode::Clean,
        ),
    decreases e, 0nat,
{
    let op = e->BinOp_0;
    let first = first_operand(e);
    let second = second_operand(e);
    let parts = lemma_operand_codes(e, si, env, l, brk, funcs);
    let c1 = parts.first;
    let c2 = parts.second;
    let code = compile_expr(e, si, env, l, brk, funcs)->Ok_0.0;
    if parts.first_from == l {
        lemma_code_safe(first, si, env, l, brk, funcs, mode);
    } else {
        lemma_code_safe(second, si + 1, env, l, brk, funcs, mode);
    }
    lemma_code_safe(first, si, env, parts.first_from, brk, funcs, mode);
    lemma_code_safe(second, si + 1, env, parts.second_from, brk, funcs, mode);
    lemma_expr(first, si, env, parts.first_from, brk, funcs, scope, slots, input, m, mode);
    let guard = guard_code(si);
    let finish = arith_finish(op, si);
    assert(code == c1 + guard + c2 + finish);
    lemma_operator_parts_safe(op, si);
    let p1 = c1 + guard;
    let p2 = p1 + c2;
    match eval(first, scope, input) {
        Err(fault) => {
            lemma_abort(c1, guard, m);
            lemma_abort(p1, c2, m);
            lemma_abort(p2, finish, m);
        },
        Ok((v1, scope1)) => {
            let m1 = execute(c1, m)->Done_0;
            lemma_guard(m1, si, v1);
            lemma_next(c1, guard, m);
            match v1 {
                Value::Num(n1) => {
                    let m3 = execute(guard, m1)->Done_0;
                    lemma_laid_out_by_names(scope, scope1, slots, env, si);
                    lemma_slot_free(scope, slots, env, si, si * 8);
                    assert(stored(scope1, slots, m3)) by {
                        assert forall|k: int| 0 <= k < scope1.len() implies legal(
                            (#[trigger] scope1[k]).1,
                        ) && m3.mem[m3.rsp - slots[k]] == tagged(scope1[k].1) by {
                            assert(slots[k] < si * 8);
                        }
                    }
                    lemma_laid_out_higher(scope1, slots, env, si, si + 1);
                    lemma_expr(
                        second,
                        si + 1,
                        env,
                        parts.second_from,
                        brk,
                        funcs,
                        scope1,
                        slots,
                        input,
                        m3,
                        mode,
                    );
                    lemma_next(p1, c2, m);
                    match eval(second, scope1, input) {
                        Err(fault) => {
                            lemma_abort(p2, finish, m);
                        },
                        Ok((v2, scope2)) => {
                            let m4 = execute(c2, m3)->Done_0;
                            assert(m4.mem[m.rsp - si * 8] == 2 * n1);
                            lemma_arith_finish(op, m4, si, n1, v2);
                            lemma_next(p2, finish, m);
                            assert(same_names(scope, scope2));
                            if v2 is Num && in_range(arith_result(op, n1, v2->Num_0)) {
                                let m8 = execute(finish, m4)->Done_0;
                                assert(kept(m, m8, si, slots)) by {
                                    assert forall|off: int|
                                        off < si * 8 && !slots.contains(
                                            off,
                                        ) implies #[trigger] m8.mem[m.rsp - off] == m.mem[m.rsp
                                        - off] by {
                                        assert(m4.mem[m3.rsp - off] == m3.mem[m3.rsp - off]);
                                        assert(m1.mem[m.rsp - off] == m.mem[m.rsp - off]);
                                    }
                                }
                            }
                        },
                    }
                },
                _ => {
                    lemma_abort(p1, c2, m);
                    lemma_abort(p2, finish, m);
                },
            }
        },
    }
}

/// The code of `=` computes whether its operands are the same value, or
/// leaves for the invalid-argument trampoline if they differ in type.
pub proof fn lemma_equal(
    e: ExprView,
    si: int,
    env: Map<Seq<char>, i64>,
    l: int,
    brk: Seq<char>,
    funcs: Set<Seq<char>>,
    scope: Scope,
    slots: Seq<int>,
    input: Value,
    m: Machine,
    mode: Mode,
)
    requires
        e is BinOp,
        e->BinOp_0 == Op2::Equal,
        l >= 0,
        ready(e, si, env, scope, slots, input, m, mode),
        compile_expr(e, si, env, l, brk, funcs) is Ok,
    ensures
        sound(
            compile_expr(e, si, env, l, brk, funcs)->Ok_0.0,
            m,
            eval(e, scope, input),
            scope,
            slots,
            si,
            mode == Mode::Clean,
        ),
    decreases e, 0nat,
{
    let op = e->BinOp_0;
    let first = first_operand(e);
    let second = second_operand(e);
    let parts = lemma_operand_codes(e, si, env, l, brk, funcs);
    let c1 = parts.first;
    let c2 = parts.second;
    let code = compile_expr(e, si, env, l, brk, funcs)->Ok_0.0;
    if parts.first_from == l {
        lemma_code_safe(first, si, env, l, brk, funcs, operand_mode(mode));
    } else {
        lemma_code_safe(second, si + 1, env, l, brk, funcs, operand_mode(mode));
    }
    lemma_code_safe(first, si, env, parts.first_from, brk, funcs, operand_mode(mode));
    lemma_code_safe(second, si + 1, env, parts.second_from, brk, funcs, operand_mode(mode));
    lemma_expr(first, si, env, parts.first_from, brk, funcs, scope, slots, input, m, operand_mode(mode));
    let save = seq![InstrView::IMov(slot(si), rax())];
    let tail = equal_tail(si);
    assert(code == c1 + save + c2 + tail);
    lemma_operator_parts_safe(op, si);
    let p1 = c1 + save;
    let p2 = p1 + c2;
    match eval(first, scope, input) {
        Err(fault) => {
            lemma_abort(c1, save, m);
            lemma_abort(p1, c2, m);
            lemma_abort(p2, tail, m);
        },
        Ok((v1, scope1)) => {
            let m1 = execute(c1, m)->Done_0;
            lemma_laid_out_by_names(scope, scope1, slots, env, si);
            lemma_save(m1, si, scope1, slots, env);
            let m3 = execute(save, m1)->Done_0;
            lemma_next(c1, save, m);
            lemma_laid_out_higher(scope1, slots, env, si, si + 1);
            lemma_expr(
                second,
                si + 1,
                env,
                parts.second_from,
                brk,
                funcs,
                scope1,
                slots,
                input,
                m3,
                operand_mode(mode),
            );
            lemma_next(p1, c2, m);
            match eval(second, scope1, input) {
                Err(fault) => {
                    lemma_abort(p2, tail, m);
                },
                Ok((v2, scope2)) => {
                    let m4 = execute(c2, m3)->Done_0;
                    lemma_slot_free(scope, slots, env, si, si * 8);
                    assert(m4.mem[m.rsp - si * 8] == tagged(v1));
                    lemma_equal_tail(m4, si, v1, v2);
                    lemma_next(p2, tail, m);
                    assert(same_names(scope, scope2));
                    if (v1 is Num) == (v2 is Num) {
                        let m8 = execute(tail, m4)->Done_0;
                        assert(kept(m, m8, si, slots)) by {
                        assert forall|off: int|
                            off < si * 8 && !slots.contains(off) implies #[trigger] m8.mem[m.rsp
                            - off] == m.mem[m.rsp - off] by {
                            assert(m4.mem[m3.rsp - off] == m3.mem[m3.rsp - off]);
                            assert(m1.mem[m.rsp - off] == m.mem[m.rsp - off]);
                        }
                    }
                    }
                },
            }
        },
    }
}

/// The code of an ordered comparison computes whether the comparison
/// holds of its operands, or leaves for the invalid-argument trampoline if
/// one of them is no number.
pub proof fn lemma_ordered(
    e: ExprView,
    si: int,
    env: Map<Seq<char>, i64>,
    l: int,
    brk: Seq<char>,
    funcs: Set<Seq<char>>,
    scope: Scope,
    slots: Seq<int>,
    input: Value,
    m: Machine,
    mode: Mode,
)
    requires
        e is BinOp,
        ordered(e->BinOp_0),
        l >= 0,
        ready(e, si, env, scope, slots, input, m, mode),
        compile_expr(e, si, env, l, brk, funcs) is Ok,
    ensures
        sound(
            compile_expr(e, si, env, l, brk, funcs)->Ok_0.0,
            m,
            eval(e, scope, input),
            scope,
            slots,
            si,
            mode == Mode::Clean,
        ),
    decreases e, 0nat,
{
    let op = e->BinOp_0;
    let first = first_operand(e);
    let second = second_operand(e);
    let parts = lemma_operand_codes(e, si, env, l, brk, funcs);
    let c1 = parts.first;
    let c2 = parts.second;
    let code = compile_expr(e, si, env, l, brk, funcs)->Ok_0.0;
    if parts.first_from == l {
        lemma_code_safe(first, si, env, l, brk, funcs, operand_mode(mode));
    } else {
        lemma_code_safe(second, si + 1, env, l, brk, funcs, operand_mode(mode));
    }
    lemma_code_safe(first, si, env, parts.first_from, brk, funcs, operand_mode(mode));
    lemma_code_safe(second, si + 1, env, parts.second_from, brk, funcs, operand_mode(mode));
    lemma_expr(first, si, env, parts.first_from, brk, funcs, scope, slots, input, m, operand_mode(mode));
    let save = seq![InstrView::IMov(slot(si), rax())];
    let tail = ordered_tail(op, parts.behind, si);
    assert(code == c1 + save + c2 + tail);
    lemma_ordered_tail_safe(op, parts.behind, si);
    let p1 = c1 + save;
    let p2 = p1 + c2;
    match eval(first, scope, input) {
        Err(fault) => {
            lemma_abort(c1, save, m);
            lemma_abort(p1, c2, m);
            lemma_abort(p2, tail, m);
        },
        Ok((v1, scope1)) => {
            let m1 = execute(c1, m)->Done_0;
            lemma_laid_out_by_names(scope, scope1, slots, env, si);
            lemma_save(m1, si, scope1, slots, env);
            let m3 = execute(save, m1)->Done_0;
            lemma_next(c1, save, m);
            lemma_laid_out_higher(scope1, slots, env, si, si + 1);
            lemma_expr(
                second,
                si + 1,
                env,
                parts.second_from,
                brk,
                funcs,
                scope1,
                slots,
                input,
                m3,
                operand_mode(mode),
            );
            lemma_next(p1, c2, m);
            match eval(second, scope1, input) {
                Err(fault) => {
                    lemma_abort(p2, tail, m);
                },
                Ok((v2, scope2)) => {
                    let m4 = execute(c2, m3)->Done_0;
                    lemma_slot_free(scope, slots, env, si, si * 8);
                    assert(m4.mem[m.rsp - si * 8] == tagged(v1));
                    lemma_ordered_tail(op, parts.behind, m4, si, v1, v2);
                    lemma_next(p2, tail, m);
                    assert(same_names(scope, scope2));
                    if v1 is Num && v2 is Num {
                        let m8 = execute(tail, m4)->Done_0;
                        assert(kept(m, m8, si, slots)) by {
                        assert forall|off: int|
                            off < si * 8 && !slots.contains(off) implies #[trigger] m8.mem[m.rsp
                            - off] == m.mem[m.rsp - off] by {
                            assert(m4.mem[m3.rsp - off] == m3.mem[m3.rsp - off]);
                            assert(m1.mem[m.rsp - off] == m.mem[m.rsp - off]);
                        }
                    }
                    }
                },
            }
        },
    }
}

/// The code of a conditional computes the condition and then its third
/// part if the condition is false, and its second part if not.
pub proof fn lemma_if(
    e: ExprView,
    si: int,
    env: Map<Seq<char>, i64>,
    l: int,
    brk: Seq<char>,
    funcs: Set<Seq<char>>,
    scope: Scope,
    slots: Seq<int>,
    input: Value,
    m: Machine,
    mode: Mode,
)
    requires
        e is If,
        l >= 0,
        ready(e, si, env, scope, slots, input, m, mode),
        compile_expr(e, si, env, l, brk, funcs) is Ok,
    ensures
        sound(
            compile_expr(e, si, env, l, brk, funcs)->Ok_0.0,
            m,
            eval(e, scope, input),
            scope,
            slots,
            si,
            mode == Mode::Clean,
        ),
    decreases e, 0nat,
{
    let c = *e->If_0;
    let t = *e->If_1;
    let f = *e->If_2;
    let parts = lemma_branch_codes(e, si, env, l, brk, funcs);
    let l1 = parts.l1;
    let l2 = parts.l2;
    let l3 = parts.l3;
    lemma_labels(c, si, env, l, brk, funcs, condition_mode(mode));
    lemma_labels(t, si, env, l1 + 2, brk, funcs, mode);
    lemma_labels(f, si + 1, env, l2, brk, funcs, mode);
    lemma_labels_safe(parts.first, l1 + 2, l2);
    lemma_labels_safe(parts.second, l2, l3);
    lemma_labels_miss(parts.first, l1 + 2, l2, "if"@, l1);
    lemma_labels_miss(parts.second, l2, l3, "endif"@, l1 + 1);
    lemma_expr(c, si, env, l, brk, funcs, scope, slots, input, m, condition_mode(mode));
    match eval(c, scope, input) {
        Err(fault) => {
            lemma_branch_run(parts.cond, parts.first, parts.second, l1, m);
        },
        Ok((v, mid)) => {
            let m1 = execute(parts.cond, m)->Done_0;
            let m1c = compared_with_false(m1);
            if mode == Mode::Clean {
                lemma_condition_is_boolean(c, scope, input);
                assert(wrap(1) == 1);
                assert(!m1c.over);
            }
            lemma_laid_out_by_names(scope, mid, slots, env, si);
            if v == Value::Bool(false) {
                lemma_laid_out_higher(mid, slots, env, si, si + 1);
                lemma_expr(f, si + 1, env, l2, brk, funcs, mid, slots, input, m1c, mode);
                lemma_branch_run(parts.cond, parts.first, parts.second, l1, m);
                match eval(f, mid, input) {
                    Err(fault) => {},
                    Ok((w, after)) => {
                        let m3 = execute(parts.second, m1c)->Done_0;
                        assert(same_names(scope, after));
                        assert(kept(m, m3, si, slots)) by {
                            assert forall|off: int|
                                off < si * 8 && !slots.contains(off) implies #[trigger] m3.mem[m.rsp
                                - off] == m.mem[m.rsp - off] by {
                                assert(m3.mem[m1c.rsp - off] == m1c.mem[m1c.rsp - off]);
                                assert(m1.mem[m.rsp - off] == m.mem[m.rsp - off]);
                            }
                        }
                    },
                }
            } else {
                lemma_expr(t, si, env, l1 + 2, brk, funcs, mid, slots, input, m1c, mode);
                lemma_branch_run(parts.cond, parts.first, parts.second, l1, m);
                match eval(t, mid, input) {
                    Err(fault) => {},
                    Ok((w, after)) => {
                        let m2 = execute(parts.first, m1c)->Done_0;
                        assert(same_names(scope, after));
                        assert(kept(m, m2, si, slots)) by {
                            assert forall|off: int|
                                off < si * 8 && !slots.contains(off) implies #[trigger] m2.mem[m.rsp
                                - off] == m.mem[m.rsp - off] by {
                                assert(m2.mem[m1c.rsp - off] == m1c.mem[m1c.rsp - off]);
                                assert(m1.mem[m.rsp - off] == m.mem[m.rsp - off]);
                            }
                        }
                    },
                }
            }
        },
    }
}

/// The code of the first `n` expressions of a block computes the value of
/// the last of them.
pub proof fn lemma_block(
    es: Seq<ExprView>,
    n: int,
    si: int,
    env: Map<Seq<char>, i64>,
    l: int,
    brk: Seq<char>,
    funcs: Set<Seq<char>>,
    scope: Scope,
    slots: Seq<int>,
    input: Value,
    m: Machine,
    mode: Mode,
)
    requires
        l >= 0,
        1 <= n <= es.len(),
        simple_all(es, n, mode),
        mode != Mode::Cond,
        mode != Mode::Closed ==> !m.over,
        at_entry(m.rsp),
        0 <= si,
        si + weights(es, n) <= STACK_INDEX_LIMIT,
        laid_out(scope, slots, env, si),
        stored(scope, slots, m),
        legal(input),
        m.rdi == tagged(input),
        compile_block(es, n, si, env, l, brk, funcs) is Ok,
    ensures
        sound(
            compile_block(es, n, si, env, l, brk, funcs)->Ok_0.0,
            m,
            eval_block(es, n, scope, input),
            scope,
            slots,
            si,
            mode == Mode::Clean,
        ),
    decreases es, n,
{
    let code = compile_block(es, n, si, env, l, brk, funcs)->Ok_0.0;
    if n == 1 {
        let (c, _) = compile_expr(es[0], si, env, l, brk, funcs)->Ok_0;
        assert(compile_block(es, 0, si, env, l, brk, funcs) == Ok::<
            (Seq<InstrView>, int),
            CompileErrorView,
        >((Seq::empty(), l)));
        assert(code =~= c);
        assert(weights(es, 0) == 0);
        lemma_expr(es[0], si, env, l, brk, funcs, scope, slots, input, m, mode);
    } else {
        let (before, l1) = compile_block(es, n - 1, si, env, l, brk, funcs)->Ok_0;
        let (c, _) = compile_expr(es[n - 1], si, env, l1, brk, funcs)->Ok_0;
        assert(code == before + c);
        lemma_block(es, n - 1, si, env, l, brk, funcs, scope, slots, input, m, mode);
        lemma_labels_block(es, n - 1, si, env, l, brk, funcs, mode);
        lemma_code_safe(es[n - 1], si, env, l1, brk, funcs, mode);
        lemma_then(before, c, m);
        match eval_block(es, n - 1, scope, input) {
            Err(fault) => {},
            Ok((_, mid)) => {
                let m1 = execute(before, m)->Done_0;
                lemma_laid_out_by_names(scope, mid, slots, env, si);
                lemma_expr(es[n - 1], si, env, l1, brk, funcs, mid, slots, input, m1, mode);
                match eval(es[n - 1], mid, input) {
                    Err(fault) => {},
                    Ok((v, after)) => {
                        let m2 = execute(c, m1)->Done_0;
                        lemma_kept_chain(m, m1, m2, si, slots);
                        assert(same_names(scope, after));
                    },
                }
            },
        }
    }
}

/// What holds when the code of the first `n` bindings of a `let` has run
/// from `before` to `after` and left the scope `inner`: the stack pointer
/// and `rdi` are as before; `inner` binds the names of `scope` and then `n`
/// more; the memory holds `inner`, and the environment `env` describes it;
/// the words below slot `si` that hold no binding of `scope` are as before.
pub open spec fn bound(
    before: Machine,
    after: Machine,
    scope: Scope,
    inner: Scope,
    slots: Seq<int>,
    env: Map<Seq<char>, i64>,
    si: int,
    n: int,
    clean: bool,
) -> bool {
    &&& after.rsp == before.rsp
    &&& after.rdi == before.rdi
    &&& clean ==> !after.over
    &&& inner.len() == scope.len() + n
    &&& same_names(scope, inner.take(scope.len() as int))
    &&& stored(inner, extended_slots(slots, si, n), after)
    &&& laid_out(inner, extended_slots(slots, si, n), env, si + n)
    &&& kept(before, after, si, slots)
}

/// The code of the first `n` bindings of a `let` computes their values and
/// leaves each in its slot.
#[verifier::rlimit(60)]
pub proof fn lemma_bindings(
    bs: Seq<(Seq<char>, ExprView)>,
    n: int,
    si: int,
    env: Map<Seq<char>, i64>,
    l: int,
    brk: Seq<char>,
    funcs: Set<Seq<char>>,
    scope: Scope,
    slots: Seq<int>,
    input: Value,
    m: Machine,
    mode: Mode,
)
    requires
        l >= 0,
        0 <= n <= bs.len(),
        simple_bindings(bs, n, mode),
        mode != Mode::Cond,
        mode != Mode::Closed ==> !m.over,
        at_entry(m.rsp),
        0 <= si,
        si + n + bindings_weight(bs, n) <= STACK_INDEX_LIMIT,
        laid_out(scope, slots, env, si),
        stored(scope, slots, m),
        legal(input),
        m.rdi == tagged(input),
        compile_bindings(bs, n, si, env, l, brk, funcs) is Ok,
    ensures
        match eval_bindings(bs, n, scope, input) {
            Ok(inner) => execute(
                compile_bindings(bs, n, si, env, l, brk, funcs)->Ok_0.0,
                m,
            ) matches Outcome::Done(m1) && bound(
                m,
                m1,
                scope,
                inner,
                slots,
                compile_bindings(bs, n, si, env, l, brk, funcs)->Ok_0.2,
                si,
                n,
                mode == Mode::Clean,
            ),
            Err(fault) => execute(
                compile_bindings(bs, n, si, env, l, brk, funcs)->Ok_0.0,
                m,
            ) matches Outcome::Leaves(name, _) && name == trap_label(fault),
        },
    decreases bs, n,
{
    let (code, _, env_n) = compile_bindings(bs, n, si, env, l, brk, funcs)->Ok_0;
    if n == 0 {
        assert(extended_slots(slots, si, 0) =~= slots);
        assert(scope.take(scope.len() as int) =~= scope);
        reveal_with_fuel(run, 1);
    } else {
        let (before, l1, env_p) = compile_bindings(bs, n - 1, si, env, l, brk, funcs)->Ok_0;
        let x = bs[n - 1].0;
        let rhs = bs[n - 1].1;
        let (c, _) = compile_expr(rhs, si + n - 1, env_p, l1, brk, funcs)->Ok_0;
        let save = seq![InstrView::IMov(slot(si + n - 1), rax())];
        assert(code == before + c + save);
        let off = (si + n - 1) * 8;
        assert(env_n == env_p.insert(x, off as i64));
        lemma_bindings(bs, n - 1, si, env, l, brk, funcs, scope, slots, input, m, mode);
        lemma_labels_bindings(bs, n - 1, si, env, l, brk, funcs, mode);
        lemma_code_safe(rhs, si + n - 1, env_p, l1, brk, funcs, mode);
        lemma_then(before, c, m);
        lemma_then(before + c, save, m);
        let slots_p = extended_slots(slots, si, n - 1);
        let slots_n = extended_slots(slots, si, n);
        assert(slots_n =~= slots_p.push(off));
        match eval_bindings(bs, n - 1, scope, input) {
            Err(fault) => {},
            Ok(scope_p) => {
                let m_p = execute(before, m)->Done_0;
                lemma_expr(
                    rhs,
                    si + n - 1,
                    env_p,
                    l1,
                    brk,
                    funcs,
                    scope_p,
                    slots_p,
                    input,
                    m_p,
                    mode,
                );
                match eval(rhs, scope_p, input) {
                    Err(fault) => {},
                    Ok((v, scope_r)) => {
                        let m_r = execute(c, m_p)->Done_0;
                        lemma_laid_out_by_names(scope_p, scope_r, slots_p, env_p, si + n - 1);
                        lemma_save(m_r, si + n - 1, scope_r, slots_p, env_p);
                        let m_s = execute(save, m_r)->Done_0;
                        let inner = scope_r.push((x, v));
                        assert(stored(inner, slots_n, m_s)) by {
                            assert forall|k: int| 0 <= k < inner.len() implies legal(
                                (#[trigger] inner[k]).1,
                            ) && m_s.mem[m_s.rsp - slots_n[k]] == tagged(inner[k].1) by {
                                if k < scope_r.len() {
                                    assert(inner[k] == scope_r[k]);
                                    assert(slots_n[k] == slots_p[k]);
                                }
                            }
                        }
                        assert(laid_out(inner, slots_n, env_n, si + n)) by {
                            assert forall|k: int| 0 <= k < slots_n.len() implies (
                            #[trigger] slots_n[k]) < (si + n) * 8 by {
                                if k < slots_p.len() {
                                    assert(slots_n[k] == slots_p[k]);
                                }
                            }
                            assert forall|j: int, k: int|
                                0 <= j < k < slots_n.len() implies slots_n[j] != slots_n[k] by {
                                assert(slots_n[j] == slots_p[j]);
                                if k < slots_p.len() {
                                    assert(slots_n[k] == slots_p[k]);
                                }
                            }
                            assert forall|y: Seq<char>|
                                env_n.contains_key(y) <==> nearest(inner, y) >= 0 by {
                                lemma_nearest_push(scope_r, x, v, y);
                            }
                            assert forall|y: Seq<char>| #[trigger]
                                env_n.contains_key(y) implies env_n[y] as int
                                == slots_n[nearest(inner, y)] by {
                                lemma_nearest_push(scope_r, x, v, y);
                                lemma_nearest_bounds(scope_r, y);
                                if y != x {
                                    assert(slots_n[nearest(scope_r, y)] == slots_p[nearest(
                                        scope_r,
                                        y,
                                    )]);
                                }
                            }
                        }
                        assert(same_names(scope, inner.take(scope.len() as int))) by {
                            assert forall|k: int| 0 <= k < scope.len() implies (
                            #[trigger] scope[k]).0 == inner.take(scope.len() as int)[k].0 by {
                                assert(scope_p.take(scope.len() as int)[k] == scope_p[k]);
                                assert(inner[k] == scope_r[k]);
                            }
                        }
                        assert(kept(m, m_s, si, slots)) by {
                            assert forall|o: int|
                                o < si * 8 && !slots.contains(o) implies #[trigger] m_s.mem[m.rsp
                                - o] == m.mem[m.rsp - o] by {
                                lemma_not_in_extended(slots, si, n - 1, o);
                                assert(m_r.mem[m_p.rsp - o] == m_p.mem[m_p.rsp - o]);
                                assert(m_p.mem[m.rsp - o] == m.mem[m.rsp - o]);
                            }
                        }
                    },
                }
            },
        }
    }
}

/// The code of a `let` computes its bindings and then its body; the
/// bindings are gone when it is left.
pub proof fn lemma_let(
    e: ExprView,
    si: int,
    env: Map<Seq<char>, i64>,
    l: int,
    brk: Seq<char>,
    funcs: Set<Seq<char>>,
    scope: Scope,
    slots: Seq<int>,
    input: Value,
    m: Machine,
    mode: Mode,
)
    requires
        e is Let,
        l >= 0,
        ready(e, si, env, scope, slots, input, m, mode),
        compile_expr(e, si, env, l, brk, funcs) is Ok,
    ensures
        sound(
            compile_expr(e, si, env, l, brk, funcs)->Ok_0.0,
            m,
            eval(e, scope, input),
            scope,
            slots,
            si,
            mode == Mode::Clean,
        ),
    decreases e, 0nat,
{
    let bs = e->Let_0;
    let body = *e->Let_1;
    let n = bs.len() as int;
    let (c1, l1, inner_env) = compile_bindings(bs, n, si, env, l, brk, funcs)->Ok_0;
    let (c2, _) = compile_expr(body, si + n + 1, inner_env, l1, brk, funcs)->Ok_0;
    let code = compile_expr(e, si, env, l, brk, funcs)->Ok_0.0;
    assert(code == c1 + c2);
    lemma_bindings(bs, n, si, env, l, brk, funcs, scope, slots, input, m, mode);
    lemma_labels_bindings(bs, n, si, env, l, brk, funcs, mode);
    lemma_code_safe(body, si + n + 1, inner_env, l1, brk, funcs, mode);
    lemma_then(c1, c2, m);
    let slots_n = extended_slots(slots, si, n);
    match eval_bindings(bs, n, scope, input) {
        Err(fault) => {},
        Ok(inner) => {
            let m1 = execute(c1, m)->Done_0;
            lemma_laid_out_higher(inner, slots_n, inner_env, si + n, si + n + 1);
            lemma_expr(
                body,
                si + n + 1,
                inner_env,
                l1,
                brk,
                funcs,
                inner,
                slots_n,
                input,
                m1,
                mode,
            );
            match eval(body, inner, input) {
                Err(fault) => {},
                Ok((v, after)) => {
                    let m2 = execute(c2, m1)->Done_0;
                    let out = after.take(after.len() - n);
                    assert(stored(out, slots, m2)) by {
                        assert forall|k: int| 0 <= k < out.len() implies legal(
                            (#[trigger] out[k]).1,
                        ) && m2.mem[m2.rsp - slots[k]] == tagged(out[k].1) by {
                            assert(out[k] == after[k]);
                            assert(slots_n[k] == slots[k]);
                        }
                    }
                    assert(same_names(scope, out)) by {
                        assert forall|k: int| 0 <= k < scope.len() implies (#[trigger] scope[k]).0
                            == out[k].0 by {
                            assert(inner.take(scope.len() as int)[k] == inner[k]);
                            assert(out[k] == after[k]);
                        }
                    }
                    assert(kept(m, m2, si, slots)) by {
                        assert forall|o: int|
                            o < si * 8 && !slots.contains(o) implies #[trigger] m2.mem[m.rsp - o]
                            == m.mem[m.rsp - o] by {
                            lemma_not_in_extended(slots, si, n, o);
                            assert(m2.mem[m1.rsp - o] == m1.mem[m1.rsp - o]);
                            assert(m1.mem[m.rsp - o] == m.mem[m.rsp - o]);
                        }
                    }
                },
            }
        },
    }
}

} // verus!
