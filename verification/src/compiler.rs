//! The compilation of expressions to instructions.

use vstd::prelude::*;
use vstd::string::*;
use crate::codegen::{
    binop_code, check_bool_type_instr, check_num_type_instr, choose_bool_code, compare_code,
    compare_size, conditional_jmp_compare, emit, emit_all, imm, label, new_label, rax, rbx, rdi,
    reg_rax, reg_rbx, reg_rdi, reg_rsp, rsp, same_type_code, same_type_expr, slot, stack, unop_code,
    update_vec_binop, update_vec_unop,
};
use crate::env::{env_clone, env_entries, env_get, env_update, name_members, names_contains};
use crate::error::{CompileError, CompileErrorView};
use crate::layout::{
    bindings_weight, boolean_code, bound_before, call_code, comparison_jump, compile_args,
    compile_bindings, compile_block, compile_expr, copy_args_code, input_code, number_code,
    print_code, weight, weights, word_of, Compiled,
};
use crate::types::{
    bindings_view, code_of, exprs_view, Expr, ExprView, Instr, InstrView, Op1, Op2, Reg, Val,
    FALSE_VAL, TRUE_VAL,
};

verus! {

/// The greatest stack index, plus the weight of the expression compiled
/// there, for which the compiler computes stack offsets.
pub const STACK_INDEX_LIMIT: i64 = 0x100_0000_0000;

/// Whether the result `r` and the counter value `next` are the outcome
/// `expected`.
pub open spec fn agrees(
    r: Result<Vec<Instr>, CompileError>,
    next: int,
    expected: Compiled,
) -> bool {
    match expected {
        Ok((code, l)) => r matches Ok(v) && code_of(v@) == code && next == l,
        Err(err) => r matches Err(x) && x@ == err,
    }
}

/// Adding the next expression to a prefix adds its weight, and no prefix
/// weighs more than a longer one.
pub proof fn lemma_weights_step(es: Seq<ExprView>, i: int, n: int)
    requires
        0 <= i < n <= es.len(),
    ensures
        weights(es, i + 1) == weights(es, i) + weight(es[i]),
        weights(es, i + 1) <= weights(es, n),
    decreases n - i,
{
    if i + 1 < n {
        lemma_weights_step(es, i, n - 1);
    }
}

/// Adding the next binding to a prefix adds the weight of its right-hand
/// side, and no prefix weighs more than a longer one.
pub proof fn lemma_bindings_weight_step(bs: Seq<(Seq<char>, ExprView)>, i: int, n: int)
    requires
        0 <= i < n <= bs.len(),
    ensures
        bindings_weight(bs, i + 1) == bindings_weight(bs, i) + weight(bs[i].1),
        bindings_weight(bs, i + 1) <= bindings_weight(bs, n),
    decreases n - i,
{
    if i + 1 < n {
        lemma_bindings_weight_step(bs, i, n - 1);
    }
}

/// A rejection among the first `n` expressions of a block rejects every
/// longer prefix in the same way.
pub proof fn lemma_block_rejects(
    es: Seq<ExprView>,
    n: int,
    m: int,
    si: int,
    env: Map<Seq<char>, i64>,
    l: int,
    brk: Seq<char>,
    funcs: Set<Seq<char>>,
)
    requires
        0 <= n <= m <= es.len(),
        compile_block(es, n, si, env, l, brk, funcs) is Err,
    ensures
        compile_block(es, m, si, env, l, brk, funcs) == compile_block(
            es,
            n,
            si,
            env,
            l,
            brk,
            funcs,
        ),
    decreases m - n,
{
    if n < m {
        lemma_block_rejects(es, n, m - 1, si, env, l, brk, funcs);
    }
}

/// A rejection among the first `n` arguments of a call rejects every longer
/// prefix in the same way.
pub proof fn lemma_args_reject(
    args: Seq<ExprView>,
    n: int,
    m: int,
    si: int,
    env: Map<Seq<char>, i64>,
    l: int,
    brk: Seq<char>,
    funcs: Set<Seq<char>>,
)
    requires
        0 <= n <= m <= args.len(),
        compile_args(args, n, si, env, l, brk, funcs) is Err,
    ensures
        compile_args(args, m, si, env, l, brk, funcs) == compile_args(
            args,
            n,
            si,
            env,
            l,
            brk,
            funcs,
        ),
    decreases m - n,
{
    if n < m {
        lemma_args_reject(args, n, m - 1, si, env, l, brk, funcs);
    }
}

/// A rejection among the first `n` bindings of a `let` rejects every longer
/// prefix in the same way.
pub proof fn lemma_bindings_reject(
    bs: Seq<(Seq<char>, ExprView)>,
    n: int,
    m: int,
    si: int,
    env: Map<Seq<char>, i64>,
    l: int,
    brk: Seq<char>,
    funcs: Set<Seq<char>>,
)
    requires
        0 <= n <= m <= bs.len(),
        compile_bindings(bs, n, si, env, l, brk, funcs) is Err,
    ensures
        compile_bindings(bs, m, si, env, l, brk, funcs) == compile_bindings(
            bs,
            n,
            si,
            env,
            l,
            brk,
            funcs,
        ),
    decreases m - n,
{
    if n < m {
        lemma_bindings_reject(bs, n, m - 1, si, env, l, brk, funcs);
    }
}

/// The number `n` as an unsigned word in two's complement.
pub fn word(n: i64) -> (w: u64)
    ensures
        w as int == word_of(n as int),
{
    if n >= 0 {
        n as u64
    } else {
        let shifted: i64 = (n + i64::MAX) + 1;
        (shifted as u64) + 9223372036854775808u64
    }
}

/// Whether `name` is the identifier `input`.
pub fn is_input(name: &String) -> (b: bool)
    ensures
        b == (name@ == "input"@),
{
    let input = "input".to_owned();
    *name == input
}

/// The instructions that compute the expression `e` into `rax`, or the
/// reason for rejecting it.
///
/// `si` is the index of the next free stack slot, `env` maps each bound
/// identifier to its byte offset below the stack pointer, `l` is the label
/// counter, `brake` is the label that a `break` jumps to (empty outside every
/// loop), and `func_names` holds the declared function names. The counter
/// goes up by one for each label that was taken.
pub fn compile_to_instrs(
    e: &Expr,
    si: i64,
    env: &im::HashMap<String, i64>,
    l: &mut i32,
    brake: &String,
    func_names: &im::HashSet<String>,
) -> (r: Result<Vec<Instr>, CompileError>)
    requires
        0 <= si,
        si + weight(e@) <= STACK_INDEX_LIMIT,
        *old(l) + 2 * weight(e@) <= i32::MAX,
    ensures
        *old(l) <= *final(l) <= *old(l) + 2 * weight(e@),
        agrees(
            r,
            *final(l) as int,
            compile_expr(
                e@,
                si as int,
                env_entries(*env),
                *old(l) as int,
                brake@,
                name_members(*func_names),
            ),
        ),
    decreases weight(e@), 2nat,
{
    let mut instr: Vec<Instr> = Vec::new();
    assert(code_of(instr@) =~= Seq::empty());
    match e {
        Expr::Number(n) => {
            emit(&mut instr, Instr::IMov(reg_rax(), Val::Imm(word(*n))));
            emit(&mut instr, Instr::Shl(reg_rax(), Val::Imm(1)));
            assert(code_of(instr@) =~= number_code(*n as int));
            Ok(instr)
        },
        Expr::Boolean(val) => {
            if *val {
                emit(&mut instr, Instr::IMov(reg_rax(), Val::Imm(TRUE_VAL)));
            } else {
                emit(&mut instr, Instr::IMov(reg_rax(), Val::Imm(FALSE_VAL)));
            }
            assert(code_of(instr@) =~= boolean_code(*val));
            Ok(instr)
        },
        Expr::Id(s) => {
            if is_input(s) {
                emit(&mut instr, Instr::IMov(reg_rax(), reg_rdi()));
                emit(&mut instr, Instr::OverFlow());
                assert(code_of(instr@) =~= input_code());
                Ok(instr)
            } else {
                match env_get(env, s) {
                    Some(x) => {
                        emit(&mut instr, Instr::IMov(reg_rax(), Val::RegOffset(Reg::RSP, x)));
                        assert(code_of(instr@) =~= seq![
                            InstrView::IMov(rax(), stack(env_entries(*env)[s@] as int)),
                        ]);
                        Ok(instr)
                    },
                    None => Err(CompileError::UnboundIdentifier(s.clone())),
                }
            }
        },
        Expr::Block(es) => compile_block_instrs(es, si, env, l, brake, func_names),
        Expr::Loop(body) => {
            let startloop = new_label(l, "loop");
            let endloop = new_label(l, "loopend");
            let e_is = match compile_to_instrs(body, si, env, l, &endloop, func_names) {
                Ok(code) => code,
                Err(err) => {
                    return Err(err);
                },
            };
            emit(&mut instr, Instr::Label(Val::Label(startloop.clone())));
            emit_all(&mut instr, e_is);
            emit(&mut instr, Instr::Jmp(Val::Label(startloop)));
            emit(&mut instr, Instr::Label(Val::Label(endloop)));
            assert(code_of(instr@) =~= seq![InstrView::Label(label(startloop@))] + code_of(e_is@)
                + seq![InstrView::Jmp(label(startloop@)), InstrView::Label(label(endloop@))]);
            Ok(instr)
        },
        Expr::Break(body) => {
            let e_is = match compile_to_instrs(body, si, env, l, brake, func_names) {
                Ok(code) => code,
                Err(err) => {
                    return Err(err);
                },
            };
            if brake.as_str().is_empty() {
                return Err(CompileError::BreakOutsideLoop);
            }
            emit_all(&mut instr, e_is);
            emit(&mut instr, Instr::Jmp(Val::Label(brake.clone())));
            assert(code_of(instr@) =~= code_of(e_is@) + seq![InstrView::Jmp(label(brake@))]);
            Ok(instr)
        },
        Expr::SetVar(name, val) => {
            let offset = match env_get(env, name) {
                Some(x) => x,
                None => {
                    return Err(CompileError::UnboundIdentifier(name.clone()));
                },
            };
            let e_is = match compile_to_instrs(val, si, env, l, brake, func_names) {
                Ok(code) => code,
                Err(err) => {
                    return Err(err);
                },
            };
            emit_all(&mut instr, e_is);
            emit(&mut instr, Instr::IMov(Val::RegOffset(Reg::RSP, offset), reg_rax()));
            assert(code_of(instr@) =~= code_of(e_is@) + seq![
                InstrView::IMov(stack(offset as int), rax()),
            ]);
            Ok(instr)
        },
        Expr::If(cond, e2, e3) => compile_if(cond, e2, e3, si, env, l, brake, func_names),
        Expr::UnOp(op1, subexpr) => compile_unop(*op1, subexpr, si, env, l, brake, func_names),
        Expr::BinOp(op2, subexpr1, subexpr2) => compile_binop(
            *op2,
            subexpr1,
            subexpr2,
            si,
            env,
            l,
            brake,
            func_names,
        ),
        Expr::Let(vec, body) => {
            let (mut instr, nenv) = match compile_let_bindings(
                vec,
                si,
                env,
                l,
                brake,
                func_names,
            ) {
                Ok(done) => done,
                Err(err) => {
                    return Err(err);
                },
            };
            let body_is = match compile_to_instrs(
                body,
                si + vec.len() as i64 + 1,
                &nenv,
                l,
                brake,
                func_names,
            ) {
                Ok(code) => code,
                Err(err) => {
                    return Err(err);
                },
            };
            emit_all(&mut instr, body_is);
            Ok(instr)
        },
        Expr::Call(name, args) => compile_call(name, args, si, env, l, brake, func_names),
    }
}

/// The instructions of a conditional: the condition, then a jump to the
/// second branch if it is false; the first branch, computed at stack index
/// `si`, with a jump past the end; and the second branch, computed at stack
/// index `si + 1`.
pub fn compile_if(
    cond: &Expr,
    e2: &Expr,
    e3: &Expr,
    si: i64,
    env: &im::HashMap<String, i64>,
    l: &mut i32,
    brake: &String,
    func_names: &im::HashSet<String>,
) -> (r: Result<Vec<Instr>, CompileError>)
    requires
        0 <= si,
        si + 1 + weight(cond@) + weight(e2@) + weight(e3@) <= STACK_INDEX_LIMIT,
        *old(l) + 2 * (1 + weight(cond@) + weight(e2@) + weight(e3@)) <= i32::MAX,
    ensures
        *old(l) <= *final(l) <= *old(l) + 2 * (1 + weight(cond@) + weight(e2@) + weight(e3@)),
        agrees(
            r,
            *final(l) as int,
            compile_expr(
                ExprView::If(Box::new(cond@), Box::new(e2@), Box::new(e3@)),
                si as int,
                env_entries(*env),
                *old(l) as int,
                brake@,
                name_members(*func_names),
            ),
        ),
    decreases 1 + weight(cond@) + weight(e2@) + weight(e3@), 0nat,
{
    let mut instr: Vec<Instr> = Vec::new();
    assert(code_of(instr@) =~= Seq::empty());
    let cond_is = match compile_to_instrs(cond, si, env, l, brake, func_names) {
        Ok(code) => code,
        Err(err) => {
            return Err(err);
        },
    };
    let cond_label = new_label(l, "if");
    let end_label = new_label(l, "endif");
    let first_is = match compile_to_instrs(e2, si, env, l, brake, func_names) {
        Ok(code) => code,
        Err(err) => {
            return Err(err);
        },
    };
    let second_is = match compile_to_instrs(e3, si + 1, env, l, brake, func_names) {
        Ok(code) => code,
        Err(err) => {
            return Err(err);
        },
    };
    emit_all(&mut instr, cond_is);
    emit(&mut instr, Instr::Cmp(reg_rax(), Val::Imm(FALSE_VAL)));
    emit(&mut instr, Instr::JEqual(Val::Label(cond_label.clone())));
    emit_all(&mut instr, first_is);
    emit(&mut instr, Instr::Jmp(Val::Label(end_label.clone())));
    emit(&mut instr, Instr::Label(Val::Label(cond_label)));
    emit_all(&mut instr, second_is);
    emit(&mut instr, Instr::Label(Val::Label(end_label)));
    assert(code_of(instr@) =~= code_of(cond_is@) + seq![
        InstrView::Cmp(rax(), imm(FALSE_VAL as int)),
        InstrView::JEqual(label(cond_label@)),
    ] + code_of(first_is@) + seq![
        InstrView::Jmp(label(end_label@)),
        InstrView::Label(label(cond_label@)),
    ] + code_of(second_is@) + seq![InstrView::Label(label(end_label@))]);
    Ok(instr)
}

/// The instructions of a unary operator: its operand, then the operator.
pub fn compile_unop(
    op1: Op1,
    subexpr: &Expr,
    si: i64,
    env: &im::HashMap<String, i64>,
    l: &mut i32,
    brake: &String,
    func_names: &im::HashSet<String>,
) -> (r: Result<Vec<Instr>, CompileError>)
    requires
        0 <= si,
        si + 1 + weight(subexpr@) <= STACK_INDEX_LIMIT,
        *old(l) + 2 * (1 + weight(subexpr@)) <= i32::MAX,
    ensures
        *old(l) <= *final(l) <= *old(l) + 2 * (1 + weight(subexpr@)),
        agrees(
            r,
            *final(l) as int,
            compile_expr(
                ExprView::UnOp(op1, Box::new(subexpr@)),
                si as int,
                env_entries(*env),
                *old(l) as int,
                brake@,
                name_members(*func_names),
            ),
        ),
    decreases 1 + weight(subexpr@), 0nat,
{
    let mut instr: Vec<Instr> = Vec::new();
    assert(code_of(instr@) =~= Seq::empty());
    let e_is = match compile_to_instrs(subexpr, si, env, l, brake, func_names) {
        Ok(code) => code,
        Err(err) => {
            return Err(err);
        },
    };
    match op1 {
        Op1::Add1 => {
            update_vec_unop(&mut instr, e_is, Instr::IAdd(reg_rax(), Val::Imm(2)));
            emit(&mut instr, Instr::OverFlow());
            assert(code_of(instr@) =~= unop_code(code_of(e_is@), InstrView::IAdd(rax(), imm(2)))
                + seq![InstrView::OverFlow()]);
        },
        Op1::Sub1 => {
            update_vec_unop(&mut instr, e_is, Instr::ISub(reg_rax(), Val::Imm(2)));
            emit(&mut instr, Instr::OverFlow());
            assert(code_of(instr@) =~= unop_code(code_of(e_is@), InstrView::ISub(rax(), imm(2)))
                + seq![InstrView::OverFlow()]);
        },
        Op1::IsBool => {
            emit_all(&mut instr, e_is);
            check_bool_type_instr(&mut instr, l);
        },
        Op1::IsNum => {
            emit_all(&mut instr, e_is);
            check_num_type_instr(&mut instr, l);
        },
        Op1::Print => {
            let index: i64 = if si % 2 == 1 {
                si + 1
            } else {
                si
            };
            let offset = (index * 8) as u64;
            emit_all(&mut instr, e_is);
            emit(&mut instr, Instr::ISub(reg_rsp(), Val::Imm(offset)));
            emit(&mut instr, Instr::Push(reg_rdi()));
            emit(&mut instr, Instr::IMov(reg_rdi(), reg_rax()));
            emit(&mut instr, Instr::Call(Val::Label("snek_print".to_owned())));
            emit(&mut instr, Instr::Pop(reg_rdi()));
            emit(&mut instr, Instr::IAdd(reg_rsp(), Val::Imm(offset)));
            assert(code_of(instr@) =~= code_of(e_is@) + print_code(si as int));
        },
    }
    Ok(instr)
}

/// The instructions of a binary operator: its operands, one saved in slot
/// `si` and the other computed at stack index `si + 1`, then the operator.
pub fn compile_binop(
    op2: Op2,
    subexpr1: &Expr,
    subexpr2: &Expr,
    si: i64,
    env: &im::HashMap<String, i64>,
    l: &mut i32,
    brake: &String,
    func_names: &im::HashSet<String>,
) -> (r: Result<Vec<Instr>, CompileError>)
    requires
        0 <= si,
        si + 1 + weight(subexpr1@) + weight(subexpr2@) <= STACK_INDEX_LIMIT,
        *old(l) + 2 * (1 + weight(subexpr1@) + weight(subexpr2@)) <= i32::MAX,
    ensures
        *old(l) <= *final(l) <= *old(l) + 2 * (1 + weight(subexpr1@) + weight(subexpr2@)),
        agrees(
            r,
            *final(l) as int,
            compile_expr(
                ExprView::BinOp(op2, Box::new(subexpr1@), Box::new(subexpr2@)),
                si as int,
                env_entries(*env),
                *old(l) as int,
                brake@,
                name_members(*func_names),
            ),
        ),
    decreases 1 + weight(subexpr1@) + weight(subexpr2@), 1nat,
{
    match op2 {
        Op2::Plus => compile_plus(subexpr1, subexpr2, si, env, l, brake, func_names),
        Op2::Minus => compile_minus(subexpr1, subexpr2, si, env, l, brake, func_names),
        Op2::Times => compile_times(subexpr1, subexpr2, si, env, l, brake, func_names),
        Op2::Equal => compile_equal(subexpr1, subexpr2, si, env, l, brake, func_names),
        _ => compile_comparison(op2, subexpr1, subexpr2, si, env, l, brake, func_names),
    }
}

/// The instructions of `+`: the first operand, saved in slot `si`; the
/// second operand; the sum in `rax`, and the overflow check.
pub fn compile_plus(
    subexpr1: &Expr,
    subexpr2: &Expr,
    si: i64,
    env: &im::HashMap<String, i64>,
    l: &mut i32,
    brake: &String,
    func_names: &im::HashSet<String>,
) -> (r: Result<Vec<Instr>, CompileError>)
    requires
        0 <= si,
        si + 1 + weight(subexpr1@) + weight(subexpr2@) <= STACK_INDEX_LIMIT,
        *old(l) + 2 * (1 + weight(subexpr1@) + weight(subexpr2@)) <= i32::MAX,
    ensures
        *old(l) <= *final(l) <= *old(l) + 2 * (1 + weight(subexpr1@) + weight(subexpr2@)),
        agrees(
            r,
            *final(l) as int,
            compile_expr(
                ExprView::BinOp(Op2::Plus, Box::new(subexpr1@), Box::new(subexpr2@)),
                si as int,
                env_entries(*env),
                *old(l) as int,
                brake@,
                name_members(*func_names),
            ),
        ),
    decreases 1 + weight(subexpr1@) + weight(subexpr2@), 0nat,
{
    let mut instr: Vec<Instr> = Vec::new();
    assert(code_of(instr@) =~= Seq::empty());
    let first = match compile_to_instrs(subexpr1, si, env, l, brake, func_names) {
        Ok(code) => code,
        Err(err) => {
            return Err(err);
        },
    };
    let second = match compile_to_instrs(subexpr2, si + 1, env, l, brake, func_names) {
        Ok(code) => code,
        Err(err) => {
            return Err(err);
        },
    };
    update_vec_binop(
        &mut instr,
        first,
        second,
        Instr::IAdd(reg_rax(), Val::RegOffset(Reg::RSP, si * 8)),
        si,
    );
    emit(&mut instr, Instr::OverFlow());
    assert(code_of(instr@) =~= binop_code(
        code_of(first@),
        code_of(second@),
        InstrView::IAdd(rax(), slot(si as int)),
        si as int,
    ) + seq![InstrView::OverFlow()]);
    Ok(instr)
}

/// The instructions of `-`: the second operand, saved in slot `si`; the
/// first operand; the difference of the first and the second in `rax`, and
/// the overflow check.
pub fn compile_minus(
    subexpr1: &Expr,
    subexpr2: &Expr,
    si: i64,
    env: &im::HashMap<String, i64>,
    l: &mut i32,
    brake: &String,
    func_names: &im::HashSet<String>,
) -> (r: Result<Vec<Instr>, CompileError>)
    requires
        0 <= si,
        si + 1 + weight(subexpr1@) + weight(subexpr2@) <= STACK_INDEX_LIMIT,
        *old(l) + 2 * (1 + weight(subexpr1@) + weight(subexpr2@)) <= i32::MAX,
    ensures
        *old(l) <= *final(l) <= *old(l) + 2 * (1 + weight(subexpr1@) + weight(subexpr2@)),
        agrees(
            r,
            *final(l) as int,
            compile_expr(
                ExprView::BinOp(Op2::Minus, Box::new(subexpr1@), Box::new(subexpr2@)),
                si as int,
                env_entries(*env),
                *old(l) as int,
                brake@,
                name_members(*func_names),
            ),
        ),
    decreases 1 + weight(subexpr1@) + weight(subexpr2@), 0nat,
{
    let mut instr: Vec<Instr> = Vec::new();
    assert(code_of(instr@) =~= Seq::empty());
    let first = match compile_to_instrs(subexpr2, si, env, l, brake, func_names) {
        Ok(code) => code,
        Err(err) => {
            return Err(err);
        },
    };
    let second = match compile_to_instrs(subexpr1, si + 1, env, l, brake, func_names) {
        Ok(code) => code,
        Err(err) => {
            return Err(err);
        },
    };
    update_vec_binop(
        &mut instr,
        first,
        second,
        Instr::ISub(reg_rax(), Val::RegOffset(Reg::RSP, si * 8)),
        si,
    );
    emit(&mut instr, Instr::OverFlow());
    assert(code_of(instr@) =~= binop_code(
        code_of(first@),
        code_of(second@),
        InstrView::ISub(rax(), slot(si as int)),
        si as int,
    ) + seq![InstrView::OverFlow()]);
    Ok(instr)
}

/// The instructions of `*`: the first operand, saved in slot `si`; the
/// second operand, shifted right by one to take its tag off; the product in
/// `rax`, and the overflow check. The second operand is compiled before the
/// first, so its labels come first.
pub fn compile_times(
    subexpr1: &Expr,
    subexpr2: &Expr,
    si: i64,
    env: &im::HashMap<String, i64>,
    l: &mut i32,
    brake: &String,
    func_names: &im::HashSet<String>,
) -> (r: Result<Vec<Instr>, CompileError>)
    requires
        0 <= si,
        si + 1 + weight(subexpr1@) + weight(subexpr2@) <= STACK_INDEX_LIMIT,
        *old(l) + 2 * (1 + weight(subexpr1@) + weight(subexpr2@)) <= i32::MAX,
    ensures
        *old(l) <= *final(l) <= *old(l) + 2 * (1 + weight(subexpr1@) + weight(subexpr2@)),
        agrees(
            r,
            *final(l) as int,
            compile_expr(
                ExprView::BinOp(Op2::Times, Box::new(subexpr1@), Box::new(subexpr2@)),
                si as int,
                env_entries(*env),
                *old(l) as int,
                brake@,
                name_members(*func_names),
            ),
        ),
    decreases 1 + weight(subexpr1@) + weight(subexpr2@), 0nat,
{
    let mut instr: Vec<Instr> = Vec::new();
    assert(code_of(instr@) =~= Seq::empty());
    let second = match compile_to_instrs(subexpr2, si + 1, env, l, brake, func_names) {
        Ok(code) => code,
        Err(err) => {
            return Err(err);
        },
    };
    let first = match compile_to_instrs(subexpr1, si, env, l, brake, func_names) {
        Ok(code) => code,
        Err(err) => {
            return Err(err);
        },
    };
    update_vec_binop(&mut instr, first, second, Instr::Shr(reg_rax(), Val::Imm(1)), si);
    emit(&mut instr, Instr::IMul(reg_rax(), Val::RegOffset(Reg::RSP, si * 8)));
    emit(&mut instr, Instr::OverFlow());
    assert(code_of(instr@) =~= binop_code(
        code_of(first@),
        code_of(second@),
        InstrView::Shr(rax(), imm(1)),
        si as int,
    ) + seq![InstrView::IMul(rax(), slot(si as int)), InstrView::OverFlow()]);
    Ok(instr)
}

/// The instructions of `=`: the second operand, saved in slot `si`; the
/// first operand; the check that both have the same type; and true in `rax`
/// if the two words are equal, false if not.
pub fn compile_equal(
    subexpr1: &Expr,
    subexpr2: &Expr,
    si: i64,
    env: &im::HashMap<String, i64>,
    l: &mut i32,
    brake: &String,
    func_names: &im::HashSet<String>,
) -> (r: Result<Vec<Instr>, CompileError>)
    requires
        0 <= si,
        si + 1 + weight(subexpr1@) + weight(subexpr2@) <= STACK_INDEX_LIMIT,
        *old(l) + 2 * (1 + weight(subexpr1@) + weight(subexpr2@)) <= i32::MAX,
    ensures
        *old(l) <= *final(l) <= *old(l) + 2 * (1 + weight(subexpr1@) + weight(subexpr2@)),
        agrees(
            r,
            *final(l) as int,
            compile_expr(
                ExprView::BinOp(Op2::Equal, Box::new(subexpr1@), Box::new(subexpr2@)),
                si as int,
                env_entries(*env),
                *old(l) as int,
                brake@,
                name_members(*func_names),
            ),
        ),
    decreases 1 + weight(subexpr1@) + weight(subexpr2@), 0nat,
{
    let mut instr: Vec<Instr> = Vec::new();
    assert(code_of(instr@) =~= Seq::empty());
    let first = match compile_to_instrs(subexpr2, si, env, l, brake, func_names) {
        Ok(code) => code,
        Err(err) => {
            return Err(err);
        },
    };
    let second = match compile_to_instrs(subexpr1, si + 1, env, l, brake, func_names) {
        Ok(code) => code,
        Err(err) => {
            return Err(err);
        },
    };
    let offset = si * 8;
    emit_all(&mut instr, first);
    emit(&mut instr, Instr::IMov(Val::RegOffset(Reg::RSP, offset), reg_rax()));
    emit_all(&mut instr, second);
    same_type_expr(&mut instr, offset);
    emit(&mut instr, Instr::Cmp(reg_rax(), Val::RegOffset(Reg::RSP, offset)));
    emit(&mut instr, Instr::IMov(reg_rbx(), Val::Imm(TRUE_VAL)));
    emit(&mut instr, Instr::IMov(reg_rax(), Val::Imm(FALSE_VAL)));
    emit(&mut instr, Instr::Cmove(reg_rax(), reg_rbx()));
    assert(code_of(instr@) =~= code_of(first@) + seq![InstrView::IMov(slot(si as int), rax())]
        + code_of(second@) + same_type_code(si * 8) + seq![
        InstrView::Cmp(rax(), slot(si as int)),
        InstrView::IMov(rbx(), imm(TRUE_VAL as int)),
        InstrView::IMov(rax(), imm(FALSE_VAL as int)),
        InstrView::Cmove(rax(), rbx()),
    ]);
    Ok(instr)
}

/// The instructions of an ordered comparison: the first operand, saved in
/// slot `si`; the second operand; the check that both are numbers; and true
/// in `rax` if the comparison holds of the first and the second, false if
/// not.
pub fn compile_comparison(
    op2: Op2,
    subexpr1: &Expr,
    subexpr2: &Expr,
    si: i64,
    env: &im::HashMap<String, i64>,
    l: &mut i32,
    brake: &String,
    func_names: &im::HashSet<String>,
) -> (r: Result<Vec<Instr>, CompileError>)
    requires
        0 <= si,
        si + 1 + weight(subexpr1@) + weight(subexpr2@) <= STACK_INDEX_LIMIT,
        *old(l) + 2 * (1 + weight(subexpr1@) + weight(subexpr2@)) <= i32::MAX,
        op2 == Op2::Greater || op2 == Op2::GreaterEqual || op2 == Op2::Less || op2 == Op2::LessEqual,
    ensures
        *old(l) <= *final(l) <= *old(l) + 2 * (1 + weight(subexpr1@) + weight(subexpr2@)),
        agrees(
            r,
            *final(l) as int,
            compile_expr(
                ExprView::BinOp(op2, Box::new(subexpr1@), Box::new(subexpr2@)),
                si as int,
                env_entries(*env),
                *old(l) as int,
                brake@,
                name_members(*func_names),
            ),
        ),
    decreases 1 + weight(subexpr1@) + weight(subexpr2@), 0nat,
{
    let mut instr: Vec<Instr> = Vec::new();
    assert(code_of(instr@) =~= Seq::empty());
    let first = match compile_to_instrs(subexpr1, si, env, l, brake, func_names) {
        Ok(code) => code,
        Err(err) => {
            return Err(err);
        },
    };
    let second = match compile_to_instrs(subexpr2, si + 1, env, l, brake, func_names) {
        Ok(code) => code,
        Err(err) => {
            return Err(err);
        },
    };
    compare_size(&mut instr, first, second, si);
    let cond_label = new_label(l, "if");
    let end_label = new_label(l, "endif");
    let target = Val::Label(cond_label.clone());
    let jump = match op2 {
        Op2::Greater => Instr::JGreater(target),
        Op2::GreaterEqual => Instr::JGreaterEqual(target),
        Op2::Less => Instr::JLess(target),
        _ => Instr::JLessEqual(target),
    };
    emit(&mut instr, jump);
    conditional_jmp_compare(&mut instr, end_label, cond_label);
    assert(code_of(instr@) =~= compare_code(code_of(first@), code_of(second@), si as int) + seq![
        comparison_jump(op2, label(cond_label@)),
    ] + choose_bool_code(end_label@, cond_label@));
    Ok(instr)
}

/// The instructions of a call: the arguments, computed into the slots from
/// `si` on; then the frame of the callee, with a copy of each argument and
/// the saved `rdi`; the call itself; and the way back.
pub fn compile_call(
    name: &String,
    args: &Vec<Expr>,
    si: i64,
    env: &im::HashMap<String, i64>,
    l: &mut i32,
    brake: &String,
    func_names: &im::HashSet<String>,
) -> (r: Result<Vec<Instr>, CompileError>)
    requires
        0 <= si,
        si + 2 * args.len() + 3 + weights(exprs_view(*args), args.len() as int)
            <= STACK_INDEX_LIMIT,
        *old(l) + 2 * (2 * args.len() + 3 + weights(exprs_view(*args), args.len() as int))
            <= i32::MAX,
    ensures
        *old(l) <= *final(l) <= *old(l) + 2 * (2 * args.len() + 3 + weights(
            exprs_view(*args),
            args.len() as int,
        )),
        agrees(
            r,
            *final(l) as int,
            compile_expr(
                ExprView::Call(name@, exprs_view(*args)),
                si as int,
                env_entries(*env),
                *old(l) as int,
                brake@,
                name_members(*func_names),
            ),
        ),
    decreases 2 * args.len() + 3 + weights(exprs_view(*args), args.len() as int), 0nat,
{
    if !names_contains(func_names, name) {
        return Err(CompileError::UndeclaredFunction);
    }
    let mut instr = match compile_call_args(args, si, env, l, brake, func_names) {
        Ok(code) => code,
        Err(err) => {
            return Err(err);
        },
    };
    let ghost args_code = code_of(instr@);
    let n: i64 = args.len() as i64;
    let frame: i64 = if (si + 2 * n + 1) % 2 == 1 {
        si + 2 * n + 1
    } else {
        si + 2 * n + 2
    };
    let offset = (frame * 8) as u64;
    emit(&mut instr, Instr::ISub(reg_rsp(), Val::Imm(offset)));
    assert(copy_args_code(si as int, frame as int, 0) =~= Seq::empty());
    assert(code_of(instr@) =~= args_code + seq![InstrView::ISub(rsp(), imm(frame * 8))]
        + copy_args_code(si as int, frame as int, 0));
    let mut k: i64 = 0;
    while k < n
        invariant
            0 <= k <= n,
            0 <= si,
            si + 2 * n + 1 <= frame <= si + 2 * n + 2,
            frame <= STACK_INDEX_LIMIT,
            code_of(instr@) == args_code + seq![InstrView::ISub(rsp(), imm(frame * 8))]
                + copy_args_code(si as int, frame as int, k as int),
        decreases n - k,
    {
        emit(
            &mut instr,
            Instr::IMov(reg_rbx(), Val::RegOffset(Reg::RSP, -((frame - si - k) * 8))),
        );
        emit(&mut instr, Instr::IMov(Val::RegOffset(Reg::RSP, -(8 * k)), reg_rbx()));
        k = k + 1;
        assert(code_of(instr@) =~= args_code + seq![InstrView::ISub(rsp(), imm(frame * 8))]
            + copy_args_code(si as int, frame as int, k as int));
    }
    let saved = -(8 * (n + 1));
    emit(&mut instr, Instr::IMov(Val::RegOffset(Reg::RSP, saved), reg_rdi()));
    emit(&mut instr, Instr::Call(Val::Label(name.clone())));
    emit(&mut instr, Instr::IMov(reg_rdi(), Val::RegOffset(Reg::RSP, saved)));
    emit(&mut instr, Instr::IAdd(reg_rsp(), Val::Imm(offset)));
    assert(code_of(instr@) =~= args_code + call_code(name@, si as int, n as int));
    Ok(instr)
}

/// The instructions of a block: those of each expression in turn, all at
/// stack index `si`.
pub fn compile_block_instrs(
    es: &Vec<Expr>,
    si: i64,
    env: &im::HashMap<String, i64>,
    l: &mut i32,
    brake: &String,
    func_names: &im::HashSet<String>,
) -> (r: Result<Vec<Instr>, CompileError>)
    requires
        0 <= si,
        si + weights(exprs_view(*es), es.len() as int) <= STACK_INDEX_LIMIT,
        *old(l) + 2 * weights(exprs_view(*es), es.len() as int) <= i32::MAX,
    ensures
        *old(l) <= *final(l) <= *old(l) + 2 * weights(exprs_view(*es), es.len() as int),
        agrees(
            r,
            *final(l) as int,
            compile_block(
                exprs_view(*es),
                es.len() as int,
                si as int,
                env_entries(*env),
                *old(l) as int,
                brake@,
                name_members(*func_names),
            ),
        ),
    decreases 1 + weights(exprs_view(*es), es.len() as int), 0nat,
{
    let mut instr: Vec<Instr> = Vec::new();
    assert(code_of(instr@) =~= Seq::empty());
    let ghost esv = exprs_view(*es);
    let ghost l0 = *l as int;
    let mut i: usize = 0;
    while i < es.len()
        invariant
            i <= es.len(),
            esv == exprs_view(*es),
            esv.len() == es.len(),
            0 <= si,
            l0 == *old(l),
            si + weights(esv, es.len() as int) <= STACK_INDEX_LIMIT,
            l0 + 2 * weights(esv, es.len() as int) <= i32::MAX,
            l0 <= *l <= l0 + 2 * weights(esv, i as int),
            weights(esv, i as int) <= weights(esv, es.len() as int),
            compile_block(
                esv,
                i as int,
                si as int,
                env_entries(*env),
                l0,
                brake@,
                name_members(*func_names),
            ) == Ok::<(Seq<InstrView>, int), CompileErrorView>((code_of(instr@), *l as int)),
        decreases es.len() - i,
    {
        proof {
            lemma_weights_step(esv, i as int, es.len() as int);
        }
        match compile_to_instrs(&es[i], si, env, l, brake, func_names) {
            Ok(code) => {
                emit_all(&mut instr, code);
            },
            Err(err) => {
                proof {
                    lemma_block_rejects(
                        esv,
                        i + 1,
                        es.len() as int,
                        si as int,
                        env_entries(*env),
                        l0,
                        brake@,
                        name_members(*func_names),
                    );
                }
                return Err(err);
            },
        }
        i = i + 1;
    }
    Ok(instr)
}

/// The instructions that compute the arguments of a call: argument `k` is
/// computed at stack index `si + k` and saved in slot `si + k`.
pub fn compile_call_args(
    args: &Vec<Expr>,
    si: i64,
    env: &im::HashMap<String, i64>,
    l: &mut i32,
    brake: &String,
    func_names: &im::HashSet<String>,
) -> (r: Result<Vec<Instr>, CompileError>)
    requires
        0 <= si,
        si + args.len() + weights(exprs_view(*args), args.len() as int) <= STACK_INDEX_LIMIT,
        *old(l) + 2 * weights(exprs_view(*args), args.len() as int) <= i32::MAX,
    ensures
        *old(l) <= *final(l) <= *old(l) + 2 * weights(exprs_view(*args), args.len() as int),
        agrees(
            r,
            *final(l) as int,
            compile_args(
                exprs_view(*args),
                args.len() as int,
                si as int,
                env_entries(*env),
                *old(l) as int,
                brake@,
                name_members(*func_names),
            ),
        ),
    decreases 1 + weights(exprs_view(*args), args.len() as int), 0nat,
{
    let mut instr: Vec<Instr> = Vec::new();
    assert(code_of(instr@) =~= Seq::empty());
    let ghost esv = exprs_view(*args);
    let ghost l0 = *l as int;
    let mut i: usize = 0;
    let mut cur: i64 = si;
    while i < args.len()
        invariant
            i <= args.len(),
            cur == si + i,
            esv == exprs_view(*args),
            esv.len() == args.len(),
            0 <= si,
            l0 == *old(l),
            si + args.len() + weights(esv, args.len() as int) <= STACK_INDEX_LIMIT,
            l0 + 2 * weights(esv, args.len() as int) <= i32::MAX,
            l0 <= *l <= l0 + 2 * weights(esv, i as int),
            weights(esv, i as int) <= weights(esv, args.len() as int),
            compile_args(
                esv,
                i as int,
                si as int,
                env_entries(*env),
                l0,
                brake@,
                name_members(*func_names),
            ) == Ok::<(Seq<InstrView>, int), CompileErrorView>((code_of(instr@), *l as int)),
        decreases args.len() - i,
    {
        proof {
            lemma_weights_step(esv, i as int, args.len() as int);
        }
        let ghost before = code_of(instr@);
        match compile_to_instrs(&args[i], cur, env, l, brake, func_names) {
            Ok(code) => {
                emit_all(&mut instr, code);
                emit(&mut instr, Instr::IMov(Val::RegOffset(Reg::RSP, cur * 8), reg_rax()));
                assert(code_of(instr@) =~= before + code_of(code@) + seq![
                    InstrView::IMov(slot(cur as int), rax()),
                ]);
            },
            Err(err) => {
                proof {
                    lemma_args_reject(
                        esv,
                        i + 1,
                        args.len() as int,
                        si as int,
                        env_entries(*env),
                        l0,
                        brake@,
                        name_members(*func_names),
                    );
                }
                return Err(err);
            },
        }
        i = i + 1;
        cur = cur + 1;
    }
    Ok(instr)
}

/// Whether one of the first `n` bindings in `bs` binds `name`.
pub fn binds_before(bs: &Vec<(String, Expr)>, n: usize, name: &String) -> (found: bool)
    requires
        n <= bs.len(),
    ensures
        found == bound_before(bindings_view(*bs), n as int, name@),
{
    let mut j: usize = 0;
    while j < n
        invariant
            j <= n <= bs.len(),
            !bound_before(bindings_view(*bs), j as int, name@),
        decreases n - j,
    {
        if bs[j].0 == *name {
            assert(bindings_view(*bs)[j as int].0 == name@);
            return true;
        }
        j = j + 1;
    }
    false
}

/// The instructions that compute the bindings of a `let`, with the
/// environment that they extend `env` to: binding `k` is computed at stack
/// index `si + k` and saved in slot `si + k`.
pub fn compile_let_bindings(
    bs: &Vec<(String, Expr)>,
    si: i64,
    env: &im::HashMap<String, i64>,
    l: &mut i32,
    brake: &String,
    func_names: &im::HashSet<String>,
) -> (r: Result<(Vec<Instr>, im::HashMap<String, i64>), CompileError>)
    requires
        0 <= si,
        si + bs.len() + bindings_weight(bindings_view(*bs), bs.len() as int)
            <= STACK_INDEX_LIMIT,
        *old(l) + 2 * bindings_weight(bindings_view(*bs), bs.len() as int) <= i32::MAX,
    ensures
        *old(l) <= *final(l) <= *old(l) + 2 * bindings_weight(
            bindings_view(*bs),
            bs.len() as int,
        ),
        match compile_bindings(
            bindings_view(*bs),
            bs.len() as int,
            si as int,
            env_entries(*env),
            *old(l) as int,
            brake@,
            name_members(*func_names),
        ) {
            Ok((code, next, inner)) => r matches Ok(done) && code_of(done.0@) == code
                && *final(l) == next && env_entries(done.1) == inner,
            Err(err) => r matches Err(x) && x@ == err,
        },
    decreases 1 + bindings_weight(bindings_view(*bs), bs.len() as int), 0nat,
{
    let mut instr: Vec<Instr> = Vec::new();
    assert(code_of(instr@) =~= Seq::empty());
    let ghost bsv = bindings_view(*bs);
    let ghost l0 = *l as int;
    let mut nenv = env_clone(env);
    let mut i: usize = 0;
    let mut cur: i64 = si;
    while i < bs.len()
        invariant
            i <= bs.len(),
            cur == si + i,
            bsv == bindings_view(*bs),
            bsv.len() == bs.len(),
            0 <= si,
            l0 == *old(l),
            si + bs.len() + bindings_weight(bsv, bs.len() as int) <= STACK_INDEX_LIMIT,
            l0 + 2 * bindings_weight(bsv, bs.len() as int) <= i32::MAX,
            l0 <= *l <= l0 + 2 * bindings_weight(bsv, i as int),
            bindings_weight(bsv, i as int) <= bindings_weight(bsv, bs.len() as int),
            compile_bindings(
                bsv,
                i as int,
                si as int,
                env_entries(*env),
                l0,
                brake@,
                name_members(*func_names),
            ) == Ok::<(Seq<InstrView>, int, Map<Seq<char>, i64>), CompileErrorView>(
                (code_of(instr@), *l as int, env_entries(nenv)),
            ),
        decreases bs.len() - i,
    {
        proof {
            lemma_bindings_weight_step(bsv, i as int, bs.len() as int);
        }
        let key = bs[i].0.clone();
        if binds_before(bs, i, &key) {
            proof {
                lemma_bindings_reject(
                    bsv,
                    i + 1,
                    bs.len() as int,
                    si as int,
                    env_entries(*env),
                    l0,
                    brake@,
                    name_members(*func_names),
                );
            }
            return Err(CompileError::DuplicateBinding);
        }
        let ghost before = code_of(instr@);
        match compile_to_instrs(&bs[i].1, cur, &nenv, l, brake, func_names) {
            Ok(code) => {
                emit_all(&mut instr, code);
                emit(&mut instr, Instr::IMov(Val::RegOffset(Reg::RSP, cur * 8), reg_rax()));
                assert(code_of(instr@) =~= before + code_of(code@) + seq![
                    InstrView::IMov(slot(cur as int), rax()),
                ]);
                nenv = env_update(&nenv, key, cur * 8);
            },
            Err(err) => {
                proof {
                    lemma_bindings_reject(
                        bsv,
                        i + 1,
                        bs.len() as int,
                        si as int,
                        env_entries(*env),
                        l0,
                        brake@,
                        name_members(*func_names),
                    );
                }
                return Err(err);
            },
        }
        i = i + 1;
        cur = cur + 1;
    }
    Ok((instr, nenv))
}

} // verus!
