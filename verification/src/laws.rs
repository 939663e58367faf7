//! What holds of the compiler as a whole, stated over the front end's rules,
//! the emitted code and the model of the processor.

use vstd::prelude::*;
use crate::error::CompileErrorView;
use crate::compiler::STACK_INDEX_LIMIT;
use crate::layout::{
    bindings_weight, bound_before, compile_bindings, compile_definitions, compile_expr,
    compile_program, print_code, weight,
};
use crate::machine::{execute, lemma_run_resume, run, Machine, Outcome};
use crate::semantics::{
    eval, eval_bindings, in_range, legal, nearest, simple, simple_bindings, tagged, value_of, Fault,
    Mode, Scope, Value,
};
use crate::induction::lemma_expr;
use crate::soundness::{
    at_entry, first_operand, laid_out, lemma_nearest_bounds, lemma_nearest_push, lemma_next,
    lemma_number, lemma_pass, lemma_print, ready, second_operand, sound, stored, trap_label,
};
use crate::syntax::{parse_expr_spec, TreeView};
use crate::types::{ExprView, InstrView, Op1, Op2, ProgramView};

verus! {

/// The number that an even word stands for.
pub open spec fn decoded(word: int) -> int {
    word / 2
}

/// Whether a word stands for a value of the language: an even word for a
/// number of the language, 1 for false, 3 for true.
pub open spec fn legally_tagged(word: int) -> bool {
    word == 1 || word == 3 || (word % 2 == 0 && in_range(word / 2))
}

/// A number literal of the language is read as that number, and its code
/// leaves in `rax` a word that stands for the number. A number literal
/// outside the language is rejected when the program is read.
pub proof fn number_literal_keeps_its_value(
    n: int,
    is_def: bool,
    defs: Map<Seq<char>, u64>,
    si: int,
    env: Map<Seq<char>, i64>,
    l: int,
    brk: Seq<char>,
    funcs: Set<Seq<char>>,
    m: Machine,
)
    ensures
        in_range(n) ==> parse_expr_spec(TreeView::Int(n), is_def, defs) == Ok::<
            ExprView,
            CompileErrorView,
        >(ExprView::Number(n)),
        in_range(n) ==> (compile_expr(ExprView::Number(n), si, env, l, brk, funcs) matches Ok(
            done,
        ) && execute(done.0, m) matches Outcome::Done(m1) && m1.rax % 2 == 0 && decoded(m1.rax)
            == n),
        !in_range(n) ==> parse_expr_spec(TreeView::Int(n), is_def, defs) == Err::<
            ExprView,
            CompileErrorView,
        >(CompileErrorView::NumberOutOfBounds),
{
    if in_range(n) {
        lemma_number(n, m);
    }
}

/// An identifier that the environment knows is compiled to code that leaves
/// in `rax` the value of its innermost binding; an identifier that the
/// environment does not know is rejected when the program is compiled.
#[verifier::rlimit(60)]
pub proof fn identifier_is_bound_or_rejected(
    x: Seq<char>,
    si: int,
    env: Map<Seq<char>, i64>,
    l: int,
    brk: Seq<char>,
    funcs: Set<Seq<char>>,
    scope: Scope,
    slots: Seq<int>,
    m: Machine,
)
    requires
        x != "input"@,
        laid_out(scope, slots, env, si),
        stored(scope, slots, m),
    ensures
        env.contains_key(x) ==> (compile_expr(ExprView::Id(x), si, env, l, brk, funcs) matches Ok(
            done,
        ) && execute(done.0, m) matches Outcome::Done(m1) && m1.rax == tagged(value_of(scope, x))
            && nearest(scope, x) >= 0),
        !env.contains_key(x) ==> compile_expr(ExprView::Id(x), si, env, l, brk, funcs) == Err::<
            (Seq<InstrView>, int),
            CompileErrorView,
        >(CompileErrorView::UnboundIdentifier(x)),
{
    if env.contains_key(x) {
        lemma_nearest_bounds(scope, x);
        reveal_with_fuel(run, 2);
    }
}

/// The code of a simple expression computes what the expression means: run
/// from a state that holds the scope, it falls off its end with the word of
/// the expression's value in `rax`, the stack pointer and `rdi` as before,
/// and the scope in memory as evaluation has left it; or it leaves for the
/// trampoline of the fault that the expression ends in. The simple
/// expressions are those without `loop`, `break` and calls.
pub proof fn code_computes_the_value(
    e: ExprView,
    si: int,
    env: Map<Seq<char>, i64>,
    l: int,
    brk: Seq<char>,
    funcs: Set<Seq<char>>,
    scope: Scope,
    slots: Seq<int>,
    input: Value,
    m: Machine,
    mode: Mode,
)
    requires
        l >= 0,
        ready(e, si, env, scope, slots, input, m, mode),
        compile_expr(e, si, env, l, brk, funcs) is Ok,
    ensures
        sound(
            compile_expr(e, si, env, l, brk, funcs)->Ok_0.0,
            m,
            eval(e, scope, input),
            scope,
            slots,
            si,
            mode == Mode::Clean,
        ),
{
    lemma_expr(e, si, env, l, brk, funcs, scope, slots, input, m, mode);
}

/// The word that the code of a simple expression leaves in `rax` stands for
/// a value of the language.
pub proof fn result_is_legally_tagged(
    e: ExprView,
    si: int,
    env: Map<Seq<char>, i64>,
    l: int,
    brk: Seq<char>,
    funcs: Set<Seq<char>>,
    scope: Scope,
    slots: Seq<int>,
    input: Value,
    m: Machine,
    mode: Mode,
)
    requires
        l >= 0,
        ready(e, si, env, scope, slots, input, m, mode),
        compile_expr(e, si, env, l, brk, funcs) is Ok,
    ensures
        execute(compile_expr(e, si, env, l, brk, funcs)->Ok_0.0, m) matches Outcome::Done(m1)
            ==> legally_tagged(m1.rax),
{
    lemma_expr(e, si, env, l, brk, funcs, scope, slots, input, m, mode);
}

/// Whether running `code` from `m` leaves for the label `name`.
pub open spec fn leaves_for(code: Seq<InstrView>, m: Machine, name: Seq<char>) -> bool {
    execute(code, m) matches Outcome::Leaves(target, _) && target == name
}

/// Whether `e` is `add1`, `sub1`, `+`, `-` or `*` on operands that are
/// numbers in `scope`, with a mathematical result that is no number of the
/// language.
pub open spec fn leaves_the_range(e: ExprView, scope: Scope, input: Value) -> bool {
    match e {
        ExprView::UnOp(op, a) => (op == Op1::Add1 || op == Op1::Sub1) && (eval(
            *a,
            scope,
            input,
        ) matches Ok((Value::Num(n), _)) && !in_range(
            if op == Op1::Add1 {
                n + 1
            } else {
                n - 1
            },
        )),
        ExprView::BinOp(op, _, _) => (op == Op2::Plus || op == Op2::Minus || op == Op2::Times)
            && (eval(first_operand(e), scope, input) matches Ok((Value::Num(n1), mid)) && (eval(
            second_operand(e),
            mid,
            input,
        ) matches Ok((Value::Num(n2), _)) && !in_range(
            match op {
                Op2::Plus => n1 + n2,
                Op2::Minus => n2 - n1,
                _ => n1 * n2,
            },
        ))),
        _ => false,
    }
}

/// Arithmetic does not wrap: where the operands of `add1`, `sub1`, `+`, `-`
/// or `*` are numbers and the mathematical result is no number of the
/// language, the expression ends in the overflow fault, and its code leaves
/// for the overflow trampoline.
pub proof fn arithmetic_outside_the_range_overflows(
    e: ExprView,
    si: int,
    env: Map<Seq<char>, i64>,
    l: int,
    brk: Seq<char>,
    funcs: Set<Seq<char>>,
    scope: Scope,
    slots: Seq<int>,
    input: Value,
    m: Machine,
    mode: Mode,
)
    requires
        l >= 0,
        ready(e, si, env, scope, slots, input, m, mode),
        compile_expr(e, si, env, l, brk, funcs) is Ok,
        leaves_the_range(e, scope, input),
    ensures
        eval(e, scope, input) == Err::<(Value, Scope), Fault>(Fault::Overflow),
        leaves_for(compile_expr(e, si, env, l, brk, funcs)->Ok_0.0, m, "overflow"@),
{
    lemma_expr(e, si, env, l, brk, funcs, scope, slots, input, m, mode);
}

/// `=` on operands of two types ends in the invalid-argument fault, and its
/// code leaves for the invalid-argument trampoline; `=` on operands with
/// the same value is true, and its code leaves the word of true in `rax`.
pub proof fn equal_asks_for_one_type(
    a: ExprView,
    b: ExprView,
    si: int,
    env: Map<Seq<char>, i64>,
    l: int,
    brk: Seq<char>,
    funcs: Set<Seq<char>>,
    scope: Scope,
    slots: Seq<int>,
    input: Value,
    m: Machine,
)
    requires
        l >= 0,
        ready(
            ExprView::BinOp(Op2::Equal, Box::new(a), Box::new(b)),
            si,
            env,
            scope,
            slots,
            input,
            m,
            Mode::Closed,
        ),
        compile_expr(ExprView::BinOp(Op2::Equal, Box::new(a), Box::new(b)), si, env, l, brk, funcs)
            is Ok,
    ensures
        eval(b, scope, input) matches Ok((v1, mid)) ==> (eval(a, mid, input) matches Ok((v2, _))
            ==> {
            let code = compile_expr(
                ExprView::BinOp(Op2::Equal, Box::new(a), Box::new(b)),
                si,
                env,
                l,
                brk,
                funcs,
            )->Ok_0.0;
            &&& (v1 is Num) != (v2 is Num) ==> (execute(code, m) matches Outcome::Leaves(name, _)
                && name == "invalid_arg"@)
            &&& v1 == v2 ==> (execute(code, m) matches Outcome::Done(m1) && m1.rax == 3)
            &&& (v1 is Num) == (v2 is Num) && v1 != v2 ==> (execute(
                code,
                m,
            ) matches Outcome::Done(m1) && m1.rax == 1)
        }),
{
    let e = ExprView::BinOp(Op2::Equal, Box::new(a), Box::new(b));
    lemma_expr(e, si, env, l, brk, funcs, scope, slots, input, m, Mode::Closed);
}

/// The expression `(let ((x a)) (let ((x b)) x))` on two number literals.
pub open spec fn shadowing(x: Seq<char>, a: int, b: int) -> ExprView {
    ExprView::Let(
        seq![(x, ExprView::Number(a))],
        Box::new(ExprView::Let(seq![(x, ExprView::Number(b))], Box::new(ExprView::Id(x)))),
    )
}

/// The expression `(let ((x a)) (+ (let ((x b)) x) x))` on two number
/// literals.
pub open spec fn shadowing_left(x: Seq<char>, a: int, b: int) -> ExprView {
    ExprView::Let(
        seq![(x, ExprView::Number(a))],
        Box::new(
            ExprView::BinOp(
                Op2::Plus,
                Box::new(
                    ExprView::Let(seq![(x, ExprView::Number(b))], Box::new(ExprView::Id(x))),
                ),
                Box::new(ExprView::Id(x)),
            ),
        ),
    )
}

/// The `let` that binds one name.
pub open spec fn let_one(x: Seq<char>, rhs: ExprView, body: ExprView) -> ExprView {
    ExprView::Let(seq![(x, rhs)], Box::new(body))
}

/// A `let` with one binding is compiled to the code of the right-hand
/// side, the instruction that saves its value in slot `si`, and the code of
/// the body, which is compiled two slots higher with the name bound to slot
/// `si`.
pub proof fn lemma_let_one_compiles(
    x: Seq<char>,
    rhs: ExprView,
    body: ExprView,
    si: int,
    env: Map<Seq<char>, i64>,
    l: int,
    brk: Seq<char>,
    funcs: Set<Seq<char>>,
)
    requires
        compile_expr(rhs, si, env, l, brk, funcs) is Ok,
        compile_expr(
            body,
            si + 2,
            env.insert(x, (si * 8) as i64),
            compile_expr(rhs, si, env, l, brk, funcs)->Ok_0.1,
            brk,
            funcs,
        ) is Ok,
    ensures
        compile_expr(let_one(x, rhs, body), si, env, l, brk, funcs) is Ok,
{
    let bs = seq![(x, rhs)];
    reveal_with_fuel(compile_bindings, 2);
    assert(!bound_before(bs, 0, x));
    assert(bs.len() == 1);
    assert(bs[0] == (x, rhs));
    let (c, l1) = compile_expr(rhs, si, env, l, brk, funcs)->Ok_0;
    assert(compile_bindings(bs, 0, si, env, l, brk, funcs) == Ok::<
        (Seq<InstrView>, int, Map<Seq<char>, i64>),
        CompileErrorView,
    >((Seq::empty(), l, env)));
    assert(compile_bindings(bs, 1, si, env, l, brk, funcs) matches Ok(done) && done.1 == l1
        && done.2 == env.insert(x, (si * 8) as i64));
}

/// A `let` with one binding has the value of its body in the scope that
/// the binding extends, and leaves the scope without the binding.
pub proof fn lemma_let_one_evaluates(
    x: Seq<char>,
    rhs: ExprView,
    body: ExprView,
    scope: Scope,
    input: Value,
)
    ensures
        eval(let_one(x, rhs, body), scope, input) == match eval(rhs, scope, input) {
            Err(fault) => Err::<(Value, Scope), Fault>(fault),
            Ok((v, mid)) => match eval(body, mid.push((x, v)), input) {
                Err(fault) => Err(fault),
                Ok((w, after)) => Ok((w, after.take(after.len() - 1))),
            },
        },
{
    let bs = seq![(x, rhs)];
    reveal_with_fuel(eval_bindings, 2);
    assert(bs.len() == 1);
    assert(bs[0] == (x, rhs));
    assert(eval_bindings(bs, 0, scope, input) == Ok::<Scope, Fault>(scope));
    assert(eval_bindings(bs, 1, scope, input) == match eval(rhs, scope, input) {
        Err(fault) => Err::<Scope, Fault>(fault),
        Ok((v, mid)) => Ok(mid.push((x, v))),
    });
}

/// A `let` with one binding is simple if its right-hand side and its body
/// are, and weighs three more than both.
pub proof fn lemma_let_one_simple(x: Seq<char>, rhs: ExprView, body: ExprView, mode: Mode)
    ensures
        mode != Mode::Cond ==> simple(let_one(x, rhs, body), mode) == (simple(rhs, mode)
            && simple(body, mode)),
        weight(let_one(x, rhs, body)) == 3 + weight(rhs) + weight(body),
{
    let bs = seq![(x, rhs)];
    reveal_with_fuel(simple_bindings, 2);
    reveal_with_fuel(bindings_weight, 2);
    assert(bs.len() == 1);
    assert(bs[0] == (x, rhs));
    assert(simple_bindings(bs, 1, mode) == simple(rhs, mode));
    assert(bindings_weight(bs, 1) == weight(rhs));
}

/// An inner binding hides an outer binding of the same name:
/// `(let ((x a)) (let ((x b)) x))` has the value `b`, and its code leaves
/// the word of `b` in `rax`.
pub proof fn inner_binding_shadows(
    x: Seq<char>,
    a: int,
    b: int,
    si: int,
    env: Map<Seq<char>, i64>,
    l: int,
    brk: Seq<char>,
    funcs: Set<Seq<char>>,
    scope: Scope,
    slots: Seq<int>,
    input: Value,
    m: Machine,
)
    requires
        l >= 0,
        x != "input"@,
        in_range(a),
        in_range(b),
        0 <= si,
        si + 16 <= STACK_INDEX_LIMIT,
        laid_out(scope, slots, env, si),
        stored(scope, slots, m),
        at_entry(m.rsp),
        legal(input),
        m.rdi == tagged(input),
    ensures
        eval(shadowing(x, a, b), scope, input) matches Ok((v, _)) && v == Value::Num(b),
        compile_expr(shadowing(x, a, b), si, env, l, brk, funcs) matches Ok(done) && execute(
            done.0,
            m,
        ) matches Outcome::Done(m1) && m1.rax == 2 * b,
{
    let id = ExprView::Id(x);
    let inner = let_one(x, ExprView::Number(b), id);
    let e = let_one(x, ExprView::Number(a), inner);
    assert(e == shadowing(x, a, b));
    let env_a = env.insert(x, (si * 8) as i64);
    let env_b = env_a.insert(x, ((si + 2) * 8) as i64);
    assert(compile_expr(id, si + 4, env_b, l, brk, funcs) is Ok);
    lemma_let_one_compiles(x, ExprView::Number(b), id, si + 2, env_a, l, brk, funcs);
    lemma_let_one_compiles(x, ExprView::Number(a), inner, si, env, l, brk, funcs);
    let scope_a = scope.push((x, Value::Num(a)));
    let scope_b = scope_a.push((x, Value::Num(b)));
    lemma_nearest_push(scope_a, x, Value::Num(b), x);
    lemma_let_one_evaluates(x, ExprView::Number(b), id, scope_a, input);
    lemma_let_one_evaluates(x, ExprView::Number(a), inner, scope, input);
    lemma_let_one_simple(x, ExprView::Number(b), id, Mode::Closed);
    lemma_let_one_simple(x, ExprView::Number(a), inner, Mode::Closed);
    lemma_expr(e, si, env, l, brk, funcs, scope, slots, input, m, Mode::Closed);
}

/// An outer binding is in force again where the inner one ends:
/// `(let ((x a)) (+ (let ((x b)) x) x))` has the value `a + b` if that is a
/// number of the language, and its code leaves the word of `a + b` in
/// `rax`.
pub proof fn outer_binding_returns(
    x: Seq<char>,
    a: int,
    b: int,
    si: int,
    env: Map<Seq<char>, i64>,
    l: int,
    brk: Seq<char>,
    funcs: Set<Seq<char>>,
    scope: Scope,
    slots: Seq<int>,
    input: Value,
    m: Machine,
)
    requires
        l >= 0,
        x != "input"@,
        in_range(a),
        in_range(b),
        in_range(a + b),
        0 <= si,
        si + 16 <= STACK_INDEX_LIMIT,
        laid_out(scope, slots, env, si),
        stored(scope, slots, m),
        at_entry(m.rsp),
        legal(input),
        m.rdi == tagged(input),
    ensures
        eval(shadowing_left(x, a, b), scope, input) matches Ok((v, _)) && v == Value::Num(a + b),
        compile_expr(shadowing_left(x, a, b), si, env, l, brk, funcs) matches Ok(done) && execute(
            done.0,
            m,
        ) matches Outcome::Done(m1) && m1.rax == 2 * (a + b),
{
    let id = ExprView::Id(x);
    let inner = let_one(x, ExprView::Number(b), id);
    let sum = ExprView::BinOp(Op2::Plus, Box::new(inner), Box::new(id));
    let e = let_one(x, ExprView::Number(a), sum);
    assert(e == shadowing_left(x, a, b));
    let env_a = env.insert(x, (si * 8) as i64);
    let env_b = env_a.insert(x, ((si + 2) * 8) as i64);
    assert(compile_expr(id, si + 4, env_b, l, brk, funcs) is Ok);
    lemma_let_one_compiles(x, ExprView::Number(b), id, si + 2, env_a, l, brk, funcs);
    let l1 = compile_expr(inner, si + 2, env_a, l, brk, funcs)->Ok_0.1;
    assert(compile_expr(id, si + 3, env_a, l1, brk, funcs) is Ok);
    assert(compile_expr(sum, si + 2, env_a, l, brk, funcs) is Ok);
    lemma_let_one_compiles(x, ExprView::Number(a), sum, si, env, l, brk, funcs);
    let scope_a = scope.push((x, Value::Num(a)));
    let scope_b = scope_a.push((x, Value::Num(b)));
    lemma_nearest_push(scope_a, x, Value::Num(b), x);
    lemma_nearest_push(scope, x, Value::Num(a), x);
    lemma_let_one_evaluates(x, ExprView::Number(b), id, scope_a, input);
    assert(scope_b.take(scope_b.len() - 1) =~= scope_a);
    assert(eval(inner, scope_a, input) == Ok::<(Value, Scope), Fault>((Value::Num(b), scope_a)));
    assert(eval(id, scope_a, input) == Ok::<(Value, Scope), Fault>((Value::Num(a), scope_a)));
    assert(eval(sum, scope_a, input) == Ok::<(Value, Scope), Fault>(
        (Value::Num(b + a), scope_a),
    ));
    lemma_let_one_evaluates(x, ExprView::Number(a), sum, scope, input);
    lemma_let_one_simple(x, ExprView::Number(b), id, Mode::Closed);
    lemma_let_one_simple(x, ExprView::Number(a), sum, Mode::Closed);
    lemma_expr(e, si, env, l, brk, funcs, scope, slots, input, m, Mode::Closed);
}

/// A program without definitions whose main expression is simple returns
/// the value of that expression: the code of the main expression with the
/// return behind it, entered with the word of the input in `rdi`, returns
/// with the word of the value in `rax` and the stack pointer where it was;
/// or it leaves for the trampoline of the fault that the expression ends
/// in.
#[verifier::rlimit(60)]
pub proof fn main_expression_returns_its_value(
    p: ProgramView,
    input: Value,
    m: Machine,
    mode: Mode,
)
    requires
        p.defs.len() == 0,
        simple(p.main, mode),
        mode != Mode::Closed ==> !m.over,
        at_entry(m.rsp),
        2 + weight(p.main) <= STACK_INDEX_LIMIT,
        legal(input),
        m.rdi == tagged(input),
        compile_program(p) is Ok,
    ensures
        compile_program(p)->Ok_0.0.len() == 0,
        match eval(p.main, Seq::empty(), input) {
            Ok((v, _)) => execute(
                compile_program(p)->Ok_0.1 + seq![InstrView::Ret()],
                m,
            ) matches Outcome::Returns(m1) && m1.rax == tagged(v) && legally_tagged(m1.rax)
                && m1.rsp == m.rsp,
            Err(fault) => leaves_for(
                compile_program(p)->Ok_0.1 + seq![InstrView::Ret()],
                m,
                trap_label(fault),
            ),
        },
{
    let scope: Scope = Seq::empty();
    let slots: Seq<int> = Seq::empty();
    let env: Map<Seq<char>, i64> = Map::empty();
    let brk: Seq<char> = Seq::empty();
    let code = compile_program(p)->Ok_0.1;
    let ret = seq![InstrView::Ret()];
    assert(compile_definitions(p.defs, 0, 0, p.func_list) == Ok::<
        (Seq<InstrView>, int),
        CompileErrorView,
    >((Seq::empty(), 0)));
    assert(nearest(scope, Seq::empty()) < 0);
    assert forall|x: Seq<char>| env.contains_key(x) <==> nearest(scope, x) >= 0 by {
        lemma_nearest_bounds(scope, x);
    }
    lemma_expr(p.main, 2, env, 0, brk, p.func_list, scope, slots, input, m, mode);
    lemma_run_resume(code, ret, 0, m);
    reveal_with_fuel(run, 2);
    if execute(code, m) is Leaves {
        lemma_pass(execute(code, m), ret);
    }
}

/// The expression `(if (> input 0) (add1 input) (sub1 input))`.
pub open spec fn step_away_from_zero() -> ExprView {
    ExprView::If(
        Box::new(
            ExprView::BinOp(
                Op2::Greater,
                Box::new(ExprView::Id("input"@)),
                Box::new(ExprView::Number(0)),
            ),
        ),
        Box::new(ExprView::UnOp(Op1::Add1, Box::new(ExprView::Id("input"@)))),
        Box::new(ExprView::UnOp(Op1::Sub1, Box::new(ExprView::Id("input"@)))),
    )
}

/// A program may decide on its input: for every number `n` given as input,
/// the code of `(if (> input 0) (add1 input) (sub1 input))` leaves in `rax`
/// the word of `n + 1` if `n` is greater than 0, and the word of `n - 1` if
/// not, where that is a number of the language.
pub proof fn conditional_on_input(
    n: int,
    si: int,
    env: Map<Seq<char>, i64>,
    l: int,
    brk: Seq<char>,
    funcs: Set<Seq<char>>,
    scope: Scope,
    slots: Seq<int>,
    m: Machine,
)
    requires
        l >= 0,
        in_range(n),
        in_range(if n > 0 {
            n + 1
        } else {
            n - 1
        }),
        0 <= si,
        si + 16 <= STACK_INDEX_LIMIT,
        laid_out(scope, slots, env, si),
        stored(scope, slots, m),
        at_entry(m.rsp),
        m.rdi == 2 * n,
        !m.over,
    ensures
        compile_expr(step_away_from_zero(), si, env, l, brk, funcs) matches Ok(done) && execute(
            done.0,
            m,
        ) matches Outcome::Done(m1) && m1.rax == 2 * (if n > 0 {
            n + 1
        } else {
            n - 1
        }),
{
    let input = Value::Num(n);
    let id = ExprView::Id("input"@);
    let zero = ExprView::Number(0);
    let c = ExprView::BinOp(Op2::Greater, Box::new(id), Box::new(zero));
    let t = ExprView::UnOp(Op1::Add1, Box::new(id));
    let f = ExprView::UnOp(Op1::Sub1, Box::new(id));
    let e = ExprView::If(Box::new(c), Box::new(t), Box::new(f));
    assert(e == step_away_from_zero());
    assert(simple(id, Mode::Clean));
    assert(simple(zero, Mode::Clean));
    assert(simple(c, Mode::Cond));
    assert(simple(t, Mode::Clean));
    assert(simple(f, Mode::Clean));
    assert(simple(e, Mode::Clean));
    assert(weight(id) == 1 && weight(zero) == 1);
    assert(weight(c) == 3);
    assert(weight(t) == 2 && weight(f) == 2);
    assert(weight(e) == 8);
    assert(compile_expr(id, si, env, l, brk, funcs) matches Ok(done) && done.1 == l);
    assert(compile_expr(zero, si + 1, env, l, brk, funcs) matches Ok(done) && done.1 == l);
    assert(compile_expr(c, si, env, l, brk, funcs) matches Ok(done) && done.1 == l + 2);
    assert(compile_expr(id, si, env, l + 4, brk, funcs) matches Ok(done) && done.1 == l + 4);
    assert(compile_expr(t, si, env, l + 4, brk, funcs) matches Ok(done) && done.1 == l + 4);
    assert(compile_expr(id, si + 1, env, l + 4, brk, funcs) matches Ok(done) && done.1 == l + 4);
    assert(compile_expr(f, si + 1, env, l + 4, brk, funcs) matches Ok(done) && done.1 == l + 4);
    assert(compile_expr(e, si, env, l, brk, funcs) is Ok);
    assert(eval(id, scope, input) == Ok::<(Value, Scope), Fault>((input, scope)));
    assert(eval(zero, scope, input) == Ok::<(Value, Scope), Fault>((Value::Num(0), scope)));
    assert(eval(c, scope, input) == Ok::<(Value, Scope), Fault>((Value::Bool(n > 0), scope)));
    assert(eval(t, scope, input) == Ok::<(Value, Scope), Fault>((Value::Num(n + 1), scope))
        || !in_range(n + 1));
    assert(eval(f, scope, input) == Ok::<(Value, Scope), Fault>((Value::Num(n - 1), scope))
        || !in_range(n - 1));
    lemma_expr(e, si, env, l, brk, funcs, scope, slots, input, m, Mode::Clean);
}

/// What `print` hands to the runtime is the value of its operand: where the
/// operand of a simple `print` has a value, the code runs to its end, the
/// last word that the runtime has printed is the word of that value, which
/// stands for a value of the language, and the same word is in `rax`. The
/// runtime was called with the stack pointer a multiple of 16.
pub proof fn print_hands_on_the_value(
    a: ExprView,
    si: int,
    env: Map<Seq<char>, i64>,
    l: int,
    brk: Seq<char>,
    funcs: Set<Seq<char>>,
    scope: Scope,
    slots: Seq<int>,
    input: Value,
    m: Machine,
    mode: Mode,
)
    requires
        l >= 0,
        ready(ExprView::UnOp(Op1::Print, Box::new(a)), si, env, scope, slots, input, m, mode),
        compile_expr(ExprView::UnOp(Op1::Print, Box::new(a)), si, env, l, brk, funcs) is Ok,
        eval(a, scope, input) is Ok,
    ensures
        execute(
            compile_expr(ExprView::UnOp(Op1::Print, Box::new(a)), si, env, l, brk, funcs)->Ok_0.0,
            m,
        ) matches Outcome::Done(m1) && m1.out.len() > 0 && m1.out.last() == tagged(
            eval(a, scope, input)->Ok_0.0,
        ) && legally_tagged(m1.out.last()) && m1.rax == m1.out.last(),
{
    let e = ExprView::UnOp(Op1::Print, Box::new(a));
    let ca = compile_expr(a, si, env, l, brk, funcs)->Ok_0.0;
    let tail = print_code(si);
    assert(compile_expr(e, si, env, l, brk, funcs)->Ok_0.0 == ca + tail);
    lemma_expr(a, si, env, l, brk, funcs, scope, slots, input, m, mode);
    let m1 = execute(ca, m)->Done_0;
    lemma_print(m1, si);
    lemma_next(ca, tail, m);
}

} // verus!
