//! What the compiler emits for each form of expression, stated as a function
//! from the expression and its compile-time context to the instruction list.
//!
//! The context of an expression is the index `si` of the next free stack slot,
//! the environment that maps each bound identifier to its byte offset below
//! the stack pointer, the next value `l` of the label counter, the label `brk`
//! that a `break` jumps to (empty outside every loop), and the set `funcs` of
//! declared function names.

use vstd::prelude::*;
use crate::codegen::{
    binop_code, choose_bool_code, compare_code, imm, is_bool_code, is_num_code, label, label_name,
    rax, rbx, rdi, rsp, same_type_code, slot, stack, unop_code,
};
use crate::error::CompileErrorView;
use crate::types::{
    DefinitionView, ExprView, InstrView, Op1, Op2, ProgramView, ValView, FALSE_VAL, TRUE_VAL,
};

verus! {

/// The outcome of compiling in a context: the instruction list with the next
/// value of the label counter, or the reason for rejecting.
pub type Compiled = Result<(Seq<InstrView>, int), CompileErrorView>;

/// The outcome of compiling the bindings of a `let`: the instruction list,
/// the next value of the label counter and the extended environment.
pub type CompiledBindings = Result<(Seq<InstrView>, int, Map<Seq<char>, i64>), CompileErrorView>;

/// The number `n` as an unsigned 64-bit word in two's complement.
pub open spec fn word_of(n: int) -> int {
    if n < 0 {
        n + 0x1_0000_0000_0000_0000
    } else {
        n
    }
}

/// The code of a number literal: the number is moved to `rax` and shifted
/// left by one, which leaves the number tag in the lowest bit.
pub open spec fn number_code(n: int) -> Seq<InstrView> {
    seq![InstrView::IMov(rax(), imm(word_of(n))), InstrView::Shl(rax(), imm(1))]
}

/// The code of a boolean literal: its tagged word is moved to `rax`.
pub open spec fn boolean_code(b: bool) -> Seq<InstrView> {
    seq![InstrView::IMov(rax(), imm(if b { TRUE_VAL as int } else { FALSE_VAL as int }))]
}

/// The code that reads `input`: `rdi` is copied to `rax`, with an overflow
/// check behind it.
pub open spec fn input_code() -> Seq<InstrView> {
    seq![InstrView::IMov(rax(), rdi()), InstrView::OverFlow()]
}

/// The code of `print` after its operand: the stack pointer is lowered past
/// the slots in use, by an even number of words so that it is aligned at the
/// call; `rdi` is saved, the operand is handed over in `rdi`, the runtime
/// prints it, and `rdi` and the stack pointer are restored.
pub open spec fn print_code(si: int) -> Seq<InstrView> {
    let index = if si % 2 == 1 { si + 1 } else { si };
    seq![
        InstrView::ISub(rsp(), imm(index * 8)),
        InstrView::Push(rdi()),
        InstrView::IMov(rdi(), rax()),
        InstrView::Call(label("snek_print"@)),
        InstrView::Pop(rdi()),
        InstrView::IAdd(rsp(), imm(index * 8)),
    ]
}

/// The number of words by which a call of a function with `n` arguments,
/// made at stack index `si`, lowers the stack pointer: the least odd number
/// that is not less than `si + 2 * n + 1`. Below the `si` slots in use then
/// lie the `n` slots in which the arguments were computed, the saved `rdi`,
/// a free word, and the `n` argument words of the callee, the first of them
/// where the stack pointer stands. The number is odd so that the stack
/// pointer is a multiple of 16 at the call.
pub open spec fn frame_words(si: int, n: int) -> int {
    if (si + 2 * n + 1) % 2 == 1 {
        si + 2 * n + 1
    } else {
        si + 2 * n + 2
    }
}

/// The code that copies the first `k` computed arguments of a call to the
/// words at and above the lowered stack pointer: argument `j` goes from its
/// slot `si + j`, now `(frame - si - j) * 8` bytes above the stack pointer,
/// to the word `8 * j` bytes above it.
pub open spec fn copy_args_code(si: int, frame: int, k: int) -> Seq<InstrView>
    decreases k,
{
    if k <= 0 {
        Seq::empty()
    } else {
        copy_args_code(si, frame, k - 1) + seq![
            InstrView::IMov(rbx(), stack(-((frame - si - (k - 1)) * 8))),
            InstrView::IMov(stack(-(8 * (k - 1))), rbx()),
        ]
    }
}

/// The code of a call after its `n` arguments were computed into the slots
/// `si`, `si + 1`, ...: the stack pointer is lowered by the frame, the
/// arguments are copied to the words at and above it, `rdi` is saved
/// `8 * (n + 1)` bytes above it, the function is called, and `rdi` and the
/// stack pointer are restored.
pub open spec fn call_code(f: Seq<char>, si: int, n: int) -> Seq<InstrView> {
    let frame = frame_words(si, n);
    seq![InstrView::ISub(rsp(), imm(frame * 8))] + copy_args_code(si, frame, n) + seq![
        InstrView::IMov(stack(-(8 * (n + 1))), rdi()),
        InstrView::Call(label(f)),
        InstrView::IMov(rdi(), stack(-(8 * (n + 1)))),
        InstrView::IAdd(rsp(), imm(frame * 8)),
    ]
}

/// The jump that an ordered comparison takes to its true branch.
pub open spec fn comparison_jump(op: Op2, target: ValView) -> InstrView {
    match op {
        Op2::Greater => InstrView::JGreater(target),
        Op2::GreaterEqual => InstrView::JGreaterEqual(target),
        Op2::Less => InstrView::JLess(target),
        _ => InstrView::JLessEqual(target),
    }
}

/// Whether one of the first `n` bindings binds the name `x`.
pub open spec fn bound_before(bs: Seq<(Seq<char>, ExprView)>, n: int, x: Seq<char>) -> bool {
    exists|j: int| 0 <= j < n && j < bs.len() && (#[trigger] bs[j]).0 == x
}

/// A measure of the size of an expression. It bounds the number of stack
/// slots beyond `si` that its code touches, and half the number of labels
/// that its code defines.
pub open spec fn weight(e: ExprView) -> nat
    decreases e, 0nat,
{
    match e {
        ExprView::Number(_) => 1,
        ExprView::Boolean(_) => 1,
        ExprView::Id(_) => 1,
        ExprView::Let(bs, body) => bs.len() + 2 + bindings_weight(bs, bs.len() as int) + weight(
            *body,
        ),
        ExprView::UnOp(_, a) => 1 + weight(*a),
        ExprView::BinOp(_, a, b) => 1 + weight(*a) + weight(*b),
        ExprView::If(c, t, f) => 1 + weight(*c) + weight(*t) + weight(*f),
        ExprView::Loop(a) => 1 + weight(*a),
        ExprView::Break(a) => 1 + weight(*a),
        ExprView::SetVar(_, a) => 1 + weight(*a),
        ExprView::Block(es) => 1 + weights(es, es.len() as int),
        ExprView::Call(_, args) => 2 * args.len() + 3 + weights(args, args.len() as int),
    }
}

/// The sum of the weights of the first `n` expressions of a list.
pub open spec fn weights(es: Seq<ExprView>, n: int) -> nat
    decreases es, n,
{
    if n <= 0 || n > es.len() {
        0
    } else {
        weights(es, n - 1) + weight(es[n - 1])
    }
}

/// The sum of the weights of the right-hand sides of the first `n` bindings.
pub open spec fn bindings_weight(bs: Seq<(Seq<char>, ExprView)>, n: int) -> nat
    decreases bs, n,
{
    if n <= 0 || n > bs.len() {
        0
    } else {
        bindings_weight(bs, n - 1) + weight(bs[n - 1].1)
    }
}

/// What compiling the expression `e` gives in a context.
///
/// The code leaves the tagged value of `e` in `rax`. Sub-expressions are
/// compiled in the order in which the counter hands out their labels, and
/// the first rejection met in that order is the outcome.
pub open spec fn compile_expr(
    e: ExprView,
    si: int,
    env: Map<Seq<char>, i64>,
    l: int,
    brk: Seq<char>,
    funcs: Set<Seq<char>>,
) -> Compiled
    decreases e, 0nat,
{
    match e {
        ExprView::Number(n) => Ok((number_code(n), l)),
        ExprView::Boolean(b) => Ok((boolean_code(b), l)),
        ExprView::Id(x) => {
            if x == "input"@ {
                Ok((input_code(), l))
            } else if env.contains_key(x) {
                Ok((seq![InstrView::IMov(rax(), stack(env[x] as int))], l))
            } else {
                Err(CompileErrorView::UnboundIdentifier(x))
            }
        },
        ExprView::Block(es) => compile_block(es, es.len() as int, si, env, l, brk, funcs),
        ExprView::Loop(body) => {
            let start = label_name("loop"@, l);
            let end = label_name("loopend"@, l + 1);
            match compile_expr(*body, si, env, l + 2, end, funcs) {
                Err(err) => Err(err),
                Ok((code, l1)) => Ok(
                    (
                        seq![InstrView::Label(label(start))] + code + seq![
                            InstrView::Jmp(label(start)),
                            InstrView::Label(label(end)),
                        ],
                        l1,
                    ),
                ),
            }
        },
        ExprView::Break(body) => {
            match compile_expr(*body, si, env, l, brk, funcs) {
                Err(err) => Err(err),
                Ok((code, l1)) => {
                    if brk.len() == 0 {
                        Err(CompileErrorView::BreakOutsideLoop)
                    } else {
                        Ok((code + seq![InstrView::Jmp(label(brk))], l1))
                    }
                },
            }
        },
        ExprView::SetVar(x, body) => {
            if !env.contains_key(x) {
                Err(CompileErrorView::UnboundIdentifier(x))
            } else {
                match compile_expr(*body, si, env, l, brk, funcs) {
                    Err(err) => Err(err),
                    Ok((code, l1)) => Ok(
                        (code + seq![InstrView::IMov(stack(env[x] as int), rax())], l1),
                    ),
                }
            }
        },
        ExprView::If(cond, first, second) => {
            match compile_expr(*cond, si, env, l, brk, funcs) {
                Err(err) => Err(err),
                Ok((cond_code, l1)) => {
                    let other = label_name("if"@, l1);
                    let end = label_name("endif"@, l1 + 1);
                    match compile_expr(*first, si, env, l1 + 2, brk, funcs) {
                        Err(err) => Err(err),
                        Ok((first_code, l2)) => {
                            match compile_expr(*second, si + 1, env, l2, brk, funcs) {
                                Err(err) => Err(err),
                                Ok((second_code, l3)) => Ok(
                                    (
                                        cond_code + seq![
                                            InstrView::Cmp(rax(), imm(FALSE_VAL as int)),
                                            InstrView::JEqual(label(other)),
                                        ] + first_code + seq![
                                            InstrView::Jmp(label(end)),
                                            InstrView::Label(label(other)),
                                        ] + second_code + seq![InstrView::Label(label(end))],
                                        l3,
                                    ),
                                ),
                            }
                        },
                    }
                },
            }
        },
        ExprView::UnOp(op, a) => {
            match compile_expr(*a, si, env, l, brk, funcs) {
                Err(err) => Err(err),
                Ok((code, l1)) => {
                    match op {
                        Op1::Add1 => Ok(
                            (
                                unop_code(code, InstrView::IAdd(rax(), imm(2))) + seq![
                                    InstrView::OverFlow(),
                                ],
                                l1,
                            ),
                        ),
                        Op1::Sub1 => Ok(
                            (
                                unop_code(code, InstrView::ISub(rax(), imm(2))) + seq![
                                    InstrView::OverFlow(),
                                ],
                                l1,
                            ),
                        ),
                        Op1::IsBool => Ok((code + is_bool_code(l1), l1 + 2)),
                        Op1::IsNum => Ok((code + is_num_code(l1), l1 + 2)),
                        Op1::Print => Ok((code + print_code(si), l1)),
                    }
                },
            }
        },
        ExprView::BinOp(op, a, b) => {
            match op {
                Op2::Plus => {
                    match compile_expr(*a, si, env, l, brk, funcs) {
                        Err(err) => Err(err),
                        Ok((first, l1)) => {
                            match compile_expr(*b, si + 1, env, l1, brk, funcs) {
                                Err(err) => Err(err),
                                Ok((second, l2)) => Ok(
                                    (
                                        binop_code(
                                            first,
                                            second,
                                            InstrView::IAdd(rax(), slot(si)),
                                            si,
                                        ) + seq![InstrView::OverFlow()],
                                        l2,
                                    ),
                                ),
                            }
                        },
                    }
                },
                Op2::Minus => {
                    match compile_expr(*b, si, env, l, brk, funcs) {
                        Err(err) => Err(err),
                        Ok((first, l1)) => {
                            match compile_expr(*a, si + 1, env, l1, brk, funcs) {
                                Err(err) => Err(err),
                                Ok((second, l2)) => Ok(
                                    (
                                        binop_code(
                                            first,
                                            second,
                                            InstrView::ISub(rax(), slot(si)),
                                            si,
                                        ) + seq![InstrView::OverFlow()],
                                        l2,
                                    ),
                                ),
                            }
                        },
                    }
                },
                Op2::Times => {
                    match compile_expr(*b, si + 1, env, l, brk, funcs) {
                        Err(err) => Err(err),
                        Ok((second, l1)) => {
                            match compile_expr(*a, si, env, l1, brk, funcs) {
                                Err(err) => Err(err),
                                Ok((first, l2)) => Ok(
                                    (
                                        binop_code(
                                            first,
                                            second,
                                            InstrView::Shr(rax(), imm(1)),
                                            si,
                                        ) + seq![
                                            InstrView::IMul(rax(), slot(si)),
                                            InstrView::OverFlow(),
                                        ],
                                        l2,
                                    ),
                                ),
                            }
                        },
                    }
                },
                Op2::Equal => {
                    match compile_expr(*b, si, env, l, brk, funcs) {
                        Err(err) => Err(err),
                        Ok((first, l1)) => {
                            match compile_expr(*a, si + 1, env, l1, brk, funcs) {
                                Err(err) => Err(err),
                                Ok((second, l2)) => Ok(
                                    (
                                        first + seq![InstrView::IMov(slot(si), rax())] + second
                                            + same_type_code(si * 8) + seq![
                                            InstrView::Cmp(rax(), slot(si)),
                                            InstrView::IMov(rbx(), imm(TRUE_VAL as int)),
                                            InstrView::IMov(rax(), imm(FALSE_VAL as int)),
                                            InstrView::Cmove(rax(), rbx()),
                                        ],
                                        l2,
                                    ),
                                ),
                            }
                        },
                    }
                },
                _ => {
                    match compile_expr(*a, si, env, l, brk, funcs) {
                        Err(err) => Err(err),
                        Ok((first, l1)) => {
                            match compile_expr(*b, si + 1, env, l1, brk, funcs) {
                                Err(err) => Err(err),
                                Ok((second, l2)) => {
                                    let cond_label = label_name("if"@, l2);
                                    let end_label = label_name("endif"@, l2 + 1);
                                    Ok(
                                        (
                                            compare_code(first, second, si) + seq![
                                                comparison_jump(op, label(cond_label)),
                                            ] + choose_bool_code(end_label, cond_label),
                                            l2 + 2,
                                        ),
                                    )
                                },
                            }
                        },
                    }
                },
            }
        },
        ExprView::Let(bs, body) => {
            match compile_bindings(bs, bs.len() as int, si, env, l, brk, funcs) {
                Err(err) => Err(err),
                Ok((code, l1, inner)) => {
                    match compile_expr(*body, si + bs.len() + 1, inner, l1, brk, funcs) {
                        Err(err) => Err(err),
                        Ok((body_code, l2)) => Ok((code + body_code, l2)),
                    }
                },
            }
        },
        ExprView::Call(f, args) => {
            if !funcs.contains(f) {
                Err(CompileErrorView::UndeclaredFunction)
            } else {
                match compile_args(args, args.len() as int, si, env, l, brk, funcs) {
                    Err(err) => Err(err),
                    Ok((code, l1)) => Ok((code + call_code(f, si, args.len() as int), l1)),
                }
            }
        },
    }
}

/// What compiling the first `n` expressions of a block gives: each in turn,
/// at the same stack index.
pub open spec fn compile_block(
    es: Seq<ExprView>,
    n: int,
    si: int,
    env: Map<Seq<char>, i64>,
    l: int,
    brk: Seq<char>,
    funcs: Set<Seq<char>>,
) -> Compiled
    decreases es, n,
{
    if n <= 0 || n > es.len() {
        Ok((Seq::empty(), l))
    } else {
        match compile_block(es, n - 1, si, env, l, brk, funcs) {
            Err(err) => Err(err),
            Ok((code, l1)) => {
                match compile_expr(es[n - 1], si, env, l1, brk, funcs) {
                    Err(err) => Err(err),
                    Ok((next, l2)) => Ok((code + next, l2)),
                }
            },
        }
    }
}

/// What compiling the first `n` arguments of a call gives: argument `k` is
/// compiled at stack index `si + k` and saved in slot `si + k`.
pub open spec fn compile_args(
    args: Seq<ExprView>,
    n: int,
    si: int,
    env: Map<Seq<char>, i64>,
    l: int,
    brk: Seq<char>,
    funcs: Set<Seq<char>>,
) -> Compiled
    decreases args, n,
{
    if n <= 0 || n > args.len() {
        Ok((Seq::empty(), l))
    } else {
        match compile_args(args, n - 1, si, env, l, brk, funcs) {
            Err(err) => Err(err),
            Ok((code, l1)) => {
                match compile_expr(args[n - 1], si + n - 1, env, l1, brk, funcs) {
                    Err(err) => Err(err),
                    Ok((next, l2)) => Ok(
                        (code + next + seq![InstrView::IMov(slot(si + n - 1), rax())], l2),
                    ),
                }
            },
        }
    }
}

/// What compiling the first `n` bindings of a `let` gives. Binding `k` is
/// rejected if an earlier binding of the same `let` has its name. Otherwise
/// its right-hand side is compiled at stack index `si + k`, in the
/// environment that the earlier bindings have extended, and saved in slot
/// `si + k`, to which the environment then maps its name.
pub open spec fn compile_bindings(
    bs: Seq<(Seq<char>, ExprView)>,
    n: int,
    si: int,
    env: Map<Seq<char>, i64>,
    l: int,
    brk: Seq<char>,
    funcs: Set<Seq<char>>,
) -> CompiledBindings
    decreases bs, n,
{
    if n <= 0 || n > bs.len() {
        Ok((Seq::empty(), l, env))
    } else {
        match compile_bindings(bs, n - 1, si, env, l, brk, funcs) {
            Err(err) => Err(err),
            Ok((code, l1, env1)) => {
                if bound_before(bs, n - 1, bs[n - 1].0) {
                    Err(CompileErrorView::DuplicateBinding)
                } else {
                    match compile_expr(bs[n - 1].1, si + n - 1, env1, l1, brk, funcs) {
                        Err(err) => Err(err),
                        Ok((next, l2)) => Ok(
                            (
                                code + next + seq![InstrView::IMov(slot(si + n - 1), rax())],
                                l2,
                                env1.insert(bs[n - 1].0, ((si + n - 1) * 8) as i64),
                            ),
                        ),
                    }
                }
            },
        }
    }
}

/// The name of a definition.
pub open spec fn def_name(d: DefinitionView) -> Seq<char> {
    match d {
        DefinitionView::Fun(name, _, _) => name,
    }
}

/// The parameters of a definition.
pub open spec fn def_params(d: DefinitionView) -> Seq<Seq<char>> {
    match d {
        DefinitionView::Fun(_, params, _) => params,
    }
}

/// The body of a definition.
pub open spec fn def_body(d: DefinitionView) -> ExprView {
    match d {
        DefinitionView::Fun(_, _, body) => body,
    }
}

/// Whether a name stands at two places of a list.
pub open spec fn has_duplicate(names: Seq<Seq<char>>) -> bool {
    exists|i: int, j: int| 0 <= i < j < names.len() && names[i] == names[j]
}

/// The environment of a function body with the first `n` of its
/// parameters: parameter `k`, counted from zero, lies `8 * (k + 1)` bytes
/// above the stack pointer, just above the return address.
pub open spec fn param_env(params: Seq<Seq<char>>, n: int) -> Map<Seq<char>, i64>
    decreases n,
{
    if n <= 0 || n > params.len() {
        Map::empty()
    } else {
        param_env(params, n - 1).insert(params[n - 1], (-8 * n) as i64)
    }
}

/// What compiling a definition gives: it is rejected if it names a
/// parameter twice; otherwise its code is a label with its name, its body
/// compiled at stack index 2 outside every loop, and a return.
pub open spec fn compile_definition(d: DefinitionView, l: int, funcs: Set<Seq<char>>) -> Compiled {
    if has_duplicate(def_params(d)) {
        Err(CompileErrorView::DuplicateParameter)
    } else {
        match compile_expr(
            def_body(d),
            2,
            param_env(def_params(d), def_params(d).len() as int),
            l,
            Seq::empty(),
            funcs,
        ) {
            Err(err) => Err(err),
            Ok((code, l1)) => Ok(
                (seq![InstrView::Label(label(def_name(d)))] + code + seq![InstrView::Ret()], l1),
            ),
        }
    }
}

/// Whether one of the first `n` definitions has the name `name`.
pub open spec fn defined_before(defs: Seq<DefinitionView>, n: int, name: Seq<char>) -> bool {
    exists|j: int| 0 <= j < n && j < defs.len() && def_name(#[trigger] defs[j]) == name
}

/// What compiling the first `n` definitions of a program gives: each in
/// turn, the label counter running on from one to the next. A definition
/// with the name of an earlier one is rejected.
pub open spec fn compile_definitions(
    defs: Seq<DefinitionView>,
    n: int,
    l: int,
    funcs: Set<Seq<char>>,
) -> Compiled
    decreases n,
{
    if n <= 0 || n > defs.len() {
        Ok((Seq::empty(), l))
    } else {
        match compile_definitions(defs, n - 1, l, funcs) {
            Err(err) => Err(err),
            Ok((code, l1)) => {
                if defined_before(defs, n - 1, def_name(defs[n - 1])) {
                    Err(CompileErrorView::DuplicateFunction(def_name(defs[n - 1])))
                } else {
                    match compile_definition(defs[n - 1], l1, funcs) {
                        Err(err) => Err(err),
                        Ok((next, l2)) => Ok((code + next, l2)),
                    }
                }
            },
        }
    }
}

/// What compiling a program gives: the code of its definitions and the code
/// of its main expression, or the first rejection. The label counter starts
/// at zero and runs through the definitions into the main expression, which
/// is compiled at stack index 2, in the empty environment, outside every
/// loop. Calls are checked against the program's list of function names.
pub open spec fn compile_program(p: ProgramView) -> Result<
    (Seq<InstrView>, Seq<InstrView>),
    CompileErrorView,
> {
    match compile_definitions(p.defs, p.defs.len() as int, 0, p.func_list) {
        Err(err) => Err(err),
        Ok((defs_code, l1)) => {
            match compile_expr(p.main, 2, Map::empty(), l1, Seq::empty(), p.func_list) {
                Err(err) => Err(err),
                Ok((main_code, _)) => Ok((defs_code, main_code)),
            }
        },
    }
}

/// The weight of a definition: that of its body, and its parameters.
pub open spec fn def_weight(d: DefinitionView) -> nat {
    def_params(d).len() + 2 + weight(def_body(d))
}

/// The sum of the weights of the first `n` definitions.
pub open spec fn defs_weight(defs: Seq<DefinitionView>, n: int) -> nat
    decreases n,
{
    if n <= 0 || n > defs.len() {
        0
    } else {
        defs_weight(defs, n - 1) + def_weight(defs[n - 1])
    }
}

/// The weight of a program: that of its definitions and its main
/// expression.
pub open spec fn program_weight(p: ProgramView) -> nat {
    defs_weight(p.defs, p.defs.len() as int) + weight(p.main) + 2
}

/// The greatest weight of a program that the compiler takes: with it every
/// label number fits the counter and every stack offset fits a word.
pub open spec fn weight_limit() -> nat {
    0x3fff_ffff
}

/// Whether a program is small enough for the compiler.
pub open spec fn program_fits(p: ProgramView) -> bool {
    program_weight(p) <= weight_limit()
}

} // verus!
