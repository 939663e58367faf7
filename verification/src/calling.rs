//! How a call hands its arguments to the function that it calls, and how the
//! function finds them: the code of a call leaves the values of the
//! arguments in the words at and above the stack pointer, where the
//! environment of the function body looks for its parameters.

use vstd::prelude::*;
use crate::codegen::{imm, label, rax, rbx, rdi, rsp, slot, stack};
use crate::compiler::STACK_INDEX_LIMIT;
use crate::induction::{lemma_code_safe, lemma_expr};
use crate::labelling::{lemma_labels_args, lemma_labels_safe};
use crate::layout::{
    call_code, compile_args, compile_definition, compile_expr, copy_args_code, def_body, def_name,
    def_params, frame_words, has_duplicate, param_env, weight, weights,
};
use crate::machine::{
    execute, lemma_run_in_second, lemma_run_resume, lemma_single, lemma_wrap_fits, run, step, wrap,
    Machine, Outcome,
};
use crate::semantics::{
    eval, eval_args, legal, nearest, simple, simple_all, tagged, Mode, Scope, Value,
};
use crate::soundness::{
    at_entry, kept, laid_out, lemma_abort, lemma_laid_out_by_names, lemma_laid_out_higher,
    lemma_nearest_bounds, lemma_next, lemma_pass, lemma_save, lemma_slot_free, safe, same_names,
    stored, trap_label,
};
use crate::types::{DefinitionView, ExprView, InstrView};

verus! {

/// What holds when the code of the first `k` arguments of a call has run
/// from `before` to `after`: the word of argument `j` lies in slot `si + j`;
/// the stack pointer and `rdi` are as before; the memory holds the scope
/// `scope1` that evaluation has left; the words below slot `si` that hold
/// no binding are as before; and with `clean`, the overflow flag is clear.
pub open spec fn handed(
    before: Machine,
    after: Machine,
    values: Seq<Value>,
    scope: Scope,
    scope1: Scope,
    slots: Seq<int>,
    si: int,
    k: int,
    clean: bool,
) -> bool {
    &&& values.len() == k
    &&& forall|j: int|
        0 <= j < k ==> legal(#[trigger] values[j]) && after.mem[before.rsp - (si + j) * 8]
            == tagged(values[j])
    &&& after.rsp == before.rsp
    &&& after.rdi == before.rdi
    &&& same_names(scope, scope1)
    &&& stored(scope1, slots, after)
    &&& kept(before, after, si, slots)
    &&& clean ==> !after.over
}

/// The code of the first `k` arguments of a call computes their values in
/// order and leaves each in its slot, or leaves for the trampoline of the
/// first fault.
pub proof fn lemma_args(
    args: Seq<ExprView>,
    k: int,
    si: int,
    env: Map<Seq<char>, i64>,
    l: int,
    brk: Seq<char>,
    funcs: Set<Seq<char>>,
    scope: Scope,
    slots: Seq<int>,
    input: Value,
    m: Machine,
    mode: Mode,
)
    requires
        l >= 0,
        0 <= k <= args.len(),
        mode != Mode::Cond,
        simple_all(args, k, mode),
        mode != Mode::Closed ==> !m.over,
        at_entry(m.rsp),
        0 <= si,
        si + k + weights(args, k) <= STACK_INDEX_LIMIT,
        laid_out(scope, slots, env, si),
        stored(scope, slots, m),
        legal(input),
        m.rdi == tagged(input),
        compile_args(args, k, si, env, l, brk, funcs) is Ok,
    ensures
        safe(compile_args(args, k, si, env, l, brk, funcs)->Ok_0.0),
        match eval_args(args, k, scope, input) {
            Ok((values, scope1)) => execute(
                compile_args(args, k, si, env, l, brk, funcs)->Ok_0.0,
                m,
            ) matches Outcome::Done(m1) && handed(
                m,
                m1,
                values,
                scope,
                scope1,
                slots,
                si,
                k,
                mode == Mode::Clean,
            ),
            Err(fault) => execute(
                compile_args(args, k, si, env, l, brk, funcs)->Ok_0.0,
                m,
            ) matches Outcome::Leaves(name, _) && name == trap_label(fault),
        },
    decreases k,
{
    let (code, end) = compile_args(args, k, si, env, l, brk, funcs)->Ok_0;
    lemma_labels_args(args, k, si, env, l, brk, funcs, mode);
    lemma_labels_safe(code, l, end);
    if k == 0 {
        assert(run(code, 0, m) == Outcome::Done(m));
    } else {
        let (before, l1) = compile_args(args, k - 1, si, env, l, brk, funcs)->Ok_0;
        let arg = args[k - 1];
        let (c, _) = compile_expr(arg, si + k - 1, env, l1, brk, funcs)->Ok_0;
        let save = seq![InstrView::IMov(slot(si + k - 1), rax())];
        assert(code == before + c + save);
        lemma_args(args, k - 1, si, env, l, brk, funcs, scope, slots, input, m, mode);
        lemma_labels_args(args, k - 1, si, env, l, brk, funcs, mode);
        lemma_code_safe(arg, si + k - 1, env, l1, brk, funcs, mode);
        match eval_args(args, k - 1, scope, input) {
            Err(fault) => {
                lemma_abort(before, c, m);
                lemma_abort(before + c, save, m);
            },
            Ok((values, mid)) => {
                let m_p = execute(before, m)->Done_0;
                lemma_laid_out_by_names(scope, mid, slots, env, si);
                lemma_laid_out_higher(mid, slots, env, si, si + k - 1);
                lemma_expr(arg, si + k - 1, env, l1, brk, funcs, mid, slots, input, m_p, mode);
                lemma_next(before, c, m);
                match eval(arg, mid, input) {
                    Err(fault) => {
                        lemma_abort(before + c, save, m);
                    },
                    Ok((v, after)) => {
                        let m_r = execute(c, m_p)->Done_0;
                        lemma_laid_out_by_names(mid, after, slots, env, si + k - 1);
                        lemma_save(m_r, si + k - 1, after, slots, env);
                        lemma_next(before + c, save, m);
                        let m_s = execute(save, m_r)->Done_0;
                        let all = values.push(v);
                        assert forall|j: int| 0 <= j < k implies legal(#[trigger] all[j])
                            && m_s.mem[m.rsp - (si + j) * 8] == tagged(all[j]) by {
                            if j < k - 1 {
                                assert(all[j] == values[j]);
                                lemma_slot_free(scope, slots, env, si, (si + j) * 8);
                                assert(m_r.mem[m_p.rsp - (si + j) * 8] == m_p.mem[m_p.rsp - (si
                                    + j) * 8]);
                            }
                        }
                        assert(same_names(scope, after));
                        assert(kept(m, m_s, si, slots)) by {
                            assert forall|o: int|
                                o < si * 8 && !slots.contains(o) implies #[trigger] m_s.mem[m.rsp
                                - o] == m.mem[m.rsp - o] by {
                                assert(m_r.mem[m_p.rsp - o] == m_p.mem[m_p.rsp - o]);
                                assert(m_p.mem[m.rsp - o] == m.mem[m.rsp - o]);
                            }
                        }
                    },
                }
            },
        }
    }
}

/// The code that copies the first `k` arguments leaves the word of argument
/// `j` in the word `8 * j` bytes above the stack pointer, for each `j` below
/// `k`, and changes no other word of memory; it changes `rbx` and no other
/// register.
#[verifier::rlimit(60)]
pub proof fn lemma_copy(si: int, frame: int, n: int, k: int, m: Machine, values: Seq<Value>)
    requires
        0 <= si,
        0 <= k <= n,
        si + 2 * n + 1 <= frame,
        values.len() == n,
        forall|j: int|
            0 <= j < n ==> m.mem[m.rsp + (frame - si - j) * 8] == tagged(#[trigger] values[j]),
    ensures
        safe(copy_args_code(si, frame, k)),
        execute(copy_args_code(si, frame, k), m) matches Outcome::Done(m1) && m1.rsp == m.rsp
            && m1.rdi == m.rdi && m1.rax == m.rax && m1.over == m.over && (forall|j: int|
            0 <= j < k ==> m1.mem[m.rsp + 8 * j] == tagged(#[trigger] values[j])) && (forall|
            a: int,
        | a < m.rsp || a >= m.rsp + 8 * k ==> #[trigger] m1.mem[a] == m.mem[a]),
    decreases k,
{
    let code = copy_args_code(si, frame, k);
    if k == 0 {
        assert(run(code, 0, m) == Outcome::Done(m));
    } else {
        let before = copy_args_code(si, frame, k - 1);
        let load = InstrView::IMov(rbx(), stack(-((frame - si - (k - 1)) * 8)));
        let store = InstrView::IMov(stack(-(8 * (k - 1))), rbx());
        let pair = seq![load, store];
        assert(code == before + pair);
        lemma_copy(si, frame, n, k - 1, m, values);
        let m1 = execute(before, m)->Done_0;
        lemma_next(before, pair, m);
        crate::soundness::lemma_misses_concat(before, pair, "invalid_arg"@);
        crate::soundness::lemma_misses_concat(before, pair, "overflow"@);
        let m2 = step(m1, load);
        let m3 = step(m2, store);
        assert(m1.mem[m.rsp + (frame - si - (k - 1)) * 8] == tagged(values[k - 1]));
        assert(m2.rbx == tagged(values[k - 1]));
        assert(m3.mem == m1.mem.insert(m.rsp + 8 * (k - 1), tagged(values[k - 1])));
        assert(run(pair, 2, m3) == Outcome::Done(m3));
        assert(run(pair, 1, m2) == run(pair, 2, m3));
        assert(run(pair, 0, m1) == run(pair, 1, m2));
        assert forall|j: int| 0 <= j < k implies m3.mem[m.rsp + 8 * j] == tagged(
            #[trigger] values[j],
        ) by {
            if j < k - 1 {
                assert(m1.mem[m.rsp + 8 * j] == tagged(values[j]));
            }
        }
    }
}

/// Where the stack pointer stands when the function is called: lower than
/// before the call by the frame.
pub open spec fn callee_frame(rsp: int, si: int, n: int) -> int {
    rsp - frame_words(si, n) * 8
}

/// A call hands its arguments over: where the arguments of a call of `f`
/// are simple and have values, the code of the call computes them in order
/// and calls `f` with the stack pointer lowered by the frame, a multiple of
/// 16; the word of argument `j` lies `8 * j` bytes above the stack pointer,
/// and the caller's `rdi` lies `8 * (n + 1)` bytes above it; and above the
/// frame the memory still holds the scope, and every word below slot `si`.
#[verifier::rlimit(60)]
pub proof fn call_hands_over_its_arguments(
    f: Seq<char>,
    args: Seq<ExprView>,
    si: int,
    env: Map<Seq<char>, i64>,
    l: int,
    brk: Seq<char>,
    funcs: Set<Seq<char>>,
    scope: Scope,
    slots: Seq<int>,
    input: Value,
    m: Machine,
    mode: Mode,
)
    requires
        l >= 0,
        f != "snek_print"@,
        mode != Mode::Cond,
        simple_all(args, args.len() as int, mode),
        mode != Mode::Closed ==> !m.over,
        at_entry(m.rsp),
        0 <= si,
        si + weight(ExprView::Call(f, args)) <= STACK_INDEX_LIMIT,
        laid_out(scope, slots, env, si),
        stored(scope, slots, m),
        legal(input),
        m.rdi == tagged(input),
        compile_expr(ExprView::Call(f, args), si, env, l, brk, funcs) is Ok,
        eval_args(args, args.len() as int, scope, input) is Ok,
    ensures
        execute(
            compile_expr(ExprView::Call(f, args), si, env, l, brk, funcs)->Ok_0.0,
            m,
        ) matches Outcome::Calls(g, mc) && {
            let n = args.len() as int;
            let (values, scope1) = eval_args(args, n, scope, input)->Ok_0;
            &&& g == f
            &&& funcs.contains(f)
            &&& values.len() == n
            &&& mc.rdi == m.rdi
            &&& mc.rsp == callee_frame(m.rsp, si, n)
            &&& mc.rsp % 16 == 0
            &&& forall|j: int|
                0 <= j < n ==> legal(#[trigger] values[j]) && mc.mem[mc.rsp + 8 * j] == tagged(
                    values[j],
                )
            &&& mc.mem[mc.rsp + 8 * (n + 1)] == m.rdi
            &&& stored(scope1, slots, Machine { rsp: m.rsp, ..mc })
            &&& kept(m, mc, si, slots)
        },
{
    let n = args.len() as int;
    let e = ExprView::Call(f, args);
    let (args_code, _) = compile_args(args, n, si, env, l, brk, funcs)->Ok_0;
    let frame = frame_words(si, n);
    let lower = seq![InstrView::ISub(rsp(), imm(frame * 8))];
    let copies = copy_args_code(si, frame, n);
    let save = InstrView::IMov(stack(-(8 * (n + 1))), rdi());
    let last = seq![
        save,
        InstrView::Call(label(f)),
        InstrView::IMov(rdi(), stack(-(8 * (n + 1)))),
        InstrView::IAdd(rsp(), imm(frame * 8)),
    ];
    let call = call_code(f, si, n);
    assert(call == lower + copies + last);
    assert(compile_expr(e, si, env, l, brk, funcs)->Ok_0.0 == args_code + call);
    lemma_args(args, n, si, env, l, brk, funcs, scope, slots, input, m, mode);
    let (values, scope1) = eval_args(args, n, scope, input)->Ok_0;
    let m1 = execute(args_code, m)->Done_0;
    lemma_next(args_code, call, m);
    // the stack pointer goes down by the frame
    lemma_single(lower[0], m1);
    let m2 = step(m1, lower[0]);
    assert(wrap(frame * 8) == frame * 8);
    lemma_wrap_fits(m.rsp - frame * 8);
    assert(m2.rsp == m.rsp - frame * 8);
    assert(m2.mem == m1.mem && m2.rdi == m.rdi);
    assert(execute(lower, m1) == Outcome::Done(m2));
    // the arguments are copied
    assert forall|j: int| 0 <= j < n implies m2.mem[m2.rsp + (frame - si - j) * 8] == tagged(
        #[trigger] values[j],
    ) by {
        assert(m2.rsp + (frame - si - j) * 8 == m.rsp - (si + j) * 8);
    }
    lemma_copy(si, frame, n, n, m2, values);
    let m3 = execute(copies, m2)->Done_0;
    lemma_next(lower, copies, m1);
    lemma_next(lower + copies, last, m1);
    // the caller's `rdi` is saved, and the function is called
    let m4 = step(m3, save);
    assert(last[0] == save);
    assert(last[1] == InstrView::Call(label(f)));
    assert(run(last, 1, m4) == Outcome::Calls(f, m4));
    assert(run(last, 0, m3) == run(last, 1, m4));
    assert(m4.rsp == m2.rsp && m4.mem == m3.mem.insert(m2.rsp + 8 * (n + 1), m.rdi));
    assert(m4.rsp % 16 == 0);
    assert forall|j: int| 0 <= j < n implies legal(#[trigger] values[j]) && m4.mem[m4.rsp + 8
        * j] == tagged(values[j]) by {
        assert(m3.mem[m2.rsp + 8 * j] == tagged(values[j]));
    }
    assert forall|a: int| a >= m2.rsp + 8 * (n + 2) implies #[trigger] m4.mem[a] == m1.mem[a] by {
        assert(m3.mem[a] == m2.mem[a]);
    }
    let back = Machine { rsp: m.rsp, ..m4 };
    assert(stored(scope1, slots, back)) by {
        assert forall|k: int| 0 <= k < scope1.len() implies legal((#[trigger] scope1[k]).1)
            && back.mem[back.rsp - slots[k]] == tagged(scope1[k].1) by {
            assert(slots[k] < si * 8);
            assert(m4.mem[m.rsp - slots[k]] == m1.mem[m.rsp - slots[k]]);
        }
    }
    assert(kept(m, m4, si, slots)) by {
        assert forall|o: int| o < si * 8 && !slots.contains(o) implies #[trigger] m4.mem[m.rsp
            - o] == m.mem[m.rsp - o] by {
            assert(m4.mem[m.rsp - o] == m1.mem[m.rsp - o]);
        }
    }
}

/// The two instructions of a call that stand behind the call itself.
pub open spec fn return_code(si: int, n: int) -> Seq<InstrView> {
    seq![
        InstrView::IMov(rdi(), stack(-(8 * (n + 1)))),
        InstrView::IAdd(rsp(), imm(frame_words(si, n) * 8)),
    ]
}

/// A call restores what it has saved: where the function returns with the
/// stack pointer as it was at the call, the instructions behind the call
/// take `rdi` back from the word `8 * (n + 1)` bytes above the stack
/// pointer and raise the stack pointer by the frame, with the overflow flag
/// clear; `rax` and the memory are as the function has left them.
pub proof fn call_restores_after_return(si: int, n: int, m: Machine)
    requires
        0 <= si,
        0 <= n,
        si + 2 * n + 2 <= STACK_INDEX_LIMIT,
        at_entry(m.rsp + frame_words(si, n) * 8),
    ensures
        execute(return_code(si, n), m) matches Outcome::Done(m1) && m1.rdi == m.mem[m.rsp + 8 * (n
            + 1)] && m1.rsp == m.rsp + frame_words(si, n) * 8 && m1.rax == m.rax && m1.mem
            == m.mem && !m1.over,
{
    let code = return_code(si, n);
    let frame = frame_words(si, n);
    let m1 = step(m, code[0]);
    let m2 = step(m1, code[1]);
    assert(wrap(frame * 8) == frame * 8);
    lemma_wrap_fits(m.rsp + frame * 8);
    assert(m1.rdi == m.mem[m.rsp + 8 * (n + 1)]);
    assert(m2.rsp == m.rsp + frame * 8);
    assert(run(code, 2, m2) == Outcome::Done(m2));
    assert(run(code, 1, m1) == run(code, 2, m2));
    assert(run(code, 0, m) == run(code, 1, m1));
}

/// The scope of a function body on entry: each parameter with the value of
/// its argument.
pub open spec fn param_scope(params: Seq<Seq<char>>, values: Seq<Value>) -> Scope {
    Seq::new(params.len(), |k: int| (params[k], values[k]))
}

/// The offsets of the parameters of a function: parameter `k` lies
/// `8 * (k + 1)` bytes above the stack pointer.
pub open spec fn param_slots(n: int) -> Seq<int> {
    Seq::new(n as nat, |k: int| -8 * (k + 1))
}

/// The environment of a function body knows the first `n` parameters and
/// nothing else, and maps parameter `k` to the word `8 * (k + 1)` bytes
/// above the stack pointer, if no two parameters have one name.
pub proof fn lemma_param_env(params: Seq<Seq<char>>, n: int)
    requires
        0 <= n <= params.len(),
        params.len() <= STACK_INDEX_LIMIT,
        !has_duplicate(params),
    ensures
        forall|x: Seq<char>|
            param_env(params, n).contains_key(x) <==> exists|k: int|
                0 <= k < n && #[trigger] params[k] == x,
        forall|k: int|
            0 <= k < n ==> param_env(params, n)[#[trigger] params[k]] as int == -8 * (k + 1),
    decreases n,
{
    if n > 0 {
        lemma_param_env(params, n - 1);
        let before = param_env(params, n - 1);
        let after = param_env(params, n);
        assert(after == before.insert(params[n - 1], (-8 * n) as i64));
        assert forall|x: Seq<char>|
            after.contains_key(x) <==> exists|k: int| 0 <= k < n && #[trigger] params[k] == x by {
            if before.contains_key(x) {
                let k = choose|k: int| 0 <= k < n - 1 && #[trigger] params[k] == x;
                assert(0 <= k < n && params[k] == x);
            }
            if x == params[n - 1] {
                assert(0 <= n - 1 < n && params[n - 1] == x);
            }
        }
        assert forall|k: int| 0 <= k < n implies after[#[trigger] params[k]] as int == -8 * (k
            + 1) by {
            if k < n - 1 {
                assert(params[k] != params[n - 1]);
            }
        }
    }
}

/// A function finds its parameters: where no two parameters have one name
/// and the body is simple, the code of the definition, entered with the
/// word of argument `k` in the word `8 * (k + 1)` bytes above the stack
/// pointer, returns with the word of the body's value in `rax`, or leaves
/// for the trampoline of the fault that the body ends in. On return the
/// stack pointer and `rdi` are as on entry, and so is every word at and
/// above the stack pointer that is no parameter.
#[verifier::rlimit(60)]
pub proof fn function_finds_its_parameters(
    d: DefinitionView,
    l: int,
    funcs: Set<Seq<char>>,
    values: Seq<Value>,
    input: Value,
    m: Machine,
)
    requires
        l >= 0,
        !has_duplicate(def_params(d)),
        values.len() == def_params(d).len(),
        def_params(d).len() + 2 + weight(def_body(d)) <= STACK_INDEX_LIMIT,
        simple(def_body(d), Mode::Closed),
        at_entry(m.rsp),
        forall|k: int|
            0 <= k < values.len() ==> legal(#[trigger] values[k]) && m.mem[m.rsp + 8 * (k + 1)]
                == tagged(values[k]),
        legal(input),
        m.rdi == tagged(input),
        compile_definition(d, l, funcs) is Ok,
    ensures
        match eval(def_body(d), param_scope(def_params(d), values), input) {
            Ok((v, _)) => execute(
                compile_definition(d, l, funcs)->Ok_0.0,
                m,
            ) matches Outcome::Returns(m1) && m1.rax == tagged(v) && legal(v) && m1.rsp == m.rsp
                && m1.rdi == m.rdi && kept(m, m1, 2, param_slots(values.len() as int)),
            Err(fault) => execute(
                compile_definition(d, l, funcs)->Ok_0.0,
                m,
            ) matches Outcome::Leaves(name, _) && name == trap_label(fault),
        },
{
    let params = def_params(d);
    let body = def_body(d);
    let n = params.len() as int;
    let env = param_env(params, n);
    let scope = param_scope(params, values);
    let slots = param_slots(n);
    let brk: Seq<char> = Seq::empty();
    let (body_code, _) = compile_expr(body, 2, env, l, brk, funcs)->Ok_0;
    let entry = seq![InstrView::Label(label(def_name(d)))];
    let ret = seq![InstrView::Ret()];
    let code = compile_definition(d, l, funcs)->Ok_0.0;
    assert(code == entry + body_code + ret);
    lemma_param_env(params, n);
    assert(laid_out(scope, slots, env, 2)) by {
        assert forall|x: Seq<char>| env.contains_key(x) <==> nearest(scope, x) >= 0 by {
            lemma_nearest_bounds(scope, x);
            if env.contains_key(x) {
                let k = choose|k: int| 0 <= k < n && #[trigger] params[k] == x;
                assert(scope[k].0 == x);
            }
            if nearest(scope, x) >= 0 {
                assert(params[nearest(scope, x)] == x);
            }
        }
        assert forall|x: Seq<char>| #[trigger] env.contains_key(x) implies env[x] as int
            == slots[nearest(scope, x)] by {
            lemma_nearest_bounds(scope, x);
            let k = nearest(scope, x);
            assert(scope[k].0 == x);
            assert(params[k] == x);
        }
    }
    assert(stored(scope, slots, m)) by {
        assert forall|k: int| 0 <= k < scope.len() implies legal((#[trigger] scope[k]).1)
            && m.mem[m.rsp - slots[k]] == tagged(scope[k].1) by {
            assert(scope[k].1 == values[k]);
            assert(m.mem[m.rsp + 8 * (k + 1)] == tagged(values[k]));
        }
    }
    lemma_expr(body, 2, env, l, brk, funcs, scope, slots, input, m, Mode::Closed);
    // the entry label does nothing, and the body runs as it does alone
    assert(run(entry + body_code, 0, m) == run(entry + body_code, 1, m)) by {
        assert((entry + body_code)[0] == entry[0]);
        assert(step(m, entry[0]) == m);
    }
    lemma_run_in_second(entry, body_code, 0, m);
    assert(execute(entry + body_code, m) == execute(body_code, m));
    lemma_run_resume(entry + body_code, ret, 0, m);
    if execute(body_code, m) is Leaves {
        lemma_pass(execute(body_code, m), ret);
    } else {
        let m1 = execute(body_code, m)->Done_0;
        assert(run(ret, 0, m1) == Outcome::Returns(m1));
    }
}

/// The state in which a function finds the processor when it is called
/// from the state `m`: the stack pointer is lower by a word, which holds
/// the address to return to.
pub open spec fn entered(m: Machine, return_address: int) -> Machine {
    Machine { rsp: m.rsp - 8, mem: m.mem.insert(m.rsp - 8, return_address), ..m }
}

/// The state in which the caller finds the processor when a function has
/// returned in the state `m`: the stack pointer is higher by a word.
pub open spec fn left(m: Machine) -> Machine {
    Machine { rsp: m.rsp + 8, ..m }
}

/// A call has the value of the function's body: where the arguments of a
/// call are simple and have values, and the body of the function that is
/// called is simple and has a value on them, the code of the call runs up
/// to the call; the code of the function, entered there, returns; and the
/// code behind the call, entered when the function has returned, ends with
/// the word of the body's value in `rax`, with the stack pointer and `rdi`
/// of the caller, with the scope of the caller in memory as the evaluation
/// of the arguments has left it, and with every word below slot `si` as it
/// was.
#[verifier::rlimit(60)]
pub proof fn call_computes_the_function(
    d: DefinitionView,
    l_def: int,
    args: Seq<ExprView>,
    si: int,
    env: Map<Seq<char>, i64>,
    l: int,
    brk: Seq<char>,
    funcs: Set<Seq<char>>,
    scope: Scope,
    slots: Seq<int>,
    input: Value,
    m: Machine,
    mode: Mode,
    return_address: int,
)
    requires
        l >= 0,
        l_def >= 0,
        def_name(d) != "snek_print"@,
        mode != Mode::Cond,
        simple_all(args, args.len() as int, mode),
        mode != Mode::Closed ==> !m.over,
        at_entry(m.rsp),
        at_entry(callee_frame(m.rsp, si, args.len() as int) - 8),
        0 <= si,
        si + weight(ExprView::Call(def_name(d), args)) <= STACK_INDEX_LIMIT,
        laid_out(scope, slots, env, si),
        stored(scope, slots, m),
        legal(input),
        m.rdi == tagged(input),
        compile_expr(ExprView::Call(def_name(d), args), si, env, l, brk, funcs) is Ok,
        eval_args(args, args.len() as int, scope, input) is Ok,
        def_params(d).len() == args.len(),
        !has_duplicate(def_params(d)),
        def_params(d).len() + 2 + weight(def_body(d)) <= STACK_INDEX_LIMIT,
        simple(def_body(d), Mode::Closed),
        compile_definition(d, l_def, funcs) is Ok,
        eval(
            def_body(d),
            param_scope(def_params(d), eval_args(args, args.len() as int, scope, input)->Ok_0.0),
            input,
        ) is Ok,
    ensures
        ({
            let n = args.len() as int;
            let (values, scope1) = eval_args(args, n, scope, input)->Ok_0;
            let v = eval(def_body(d), param_scope(def_params(d), values), input)->Ok_0.0;
            let call = compile_expr(ExprView::Call(def_name(d), args), si, env, l, brk, funcs)->Ok_0.0;
            let function = compile_definition(d, l_def, funcs)->Ok_0.0;
            &&& execute(call, m) matches Outcome::Calls(g, mc)
            &&& g == def_name(d)
            &&& execute(function, entered(mc, return_address)) matches Outcome::Returns(mr)
            &&& execute(return_code(si, n), left(mr)) matches Outcome::Done(mf)
            &&& mf.rax == tagged(v)
            &&& legal(v)
            &&& mf.rsp == m.rsp
            &&& mf.rdi == m.rdi
            &&& !mf.over
            &&& stored(scope1, slots, mf)
            &&& kept(m, mf, si, slots)
        }),
{
    let f = def_name(d);
    let n = args.len() as int;
    let (values, scope1) = eval_args(args, n, scope, input)->Ok_0;
    let call = compile_expr(ExprView::Call(f, args), si, env, l, brk, funcs)->Ok_0.0;
    let function = compile_definition(d, l_def, funcs)->Ok_0.0;
    let frame = frame_words(si, n);
    call_hands_over_its_arguments(f, args, si, env, l, brk, funcs, scope, slots, input, m, mode);
    let mc = execute(call, m)->Calls_1;
    let me = entered(mc, return_address);
    assert forall|k: int| 0 <= k < values.len() implies legal(#[trigger] values[k])
        && me.mem[me.rsp + 8 * (k + 1)] == tagged(values[k]) by {
        assert(me.rsp + 8 * (k + 1) == mc.rsp + 8 * k);
    }
    function_finds_its_parameters(d, l_def, funcs, values, input, me);
    let mr = execute(function, me)->Returns_0;
    let ma = left(mr);
    assert(ma.rsp == mc.rsp);
    call_restores_after_return(si, n, ma);
    let mf = execute(return_code(si, n), ma)->Done_0;
    let params = param_slots(n);
    // what the function leaves alone: every word at and above its stack
    // pointer that is no parameter
    assert forall|a: int| a >= mc.rsp + 8 * n implies #[trigger] mf.mem[a] == mc.mem[a] by {
        let off = me.rsp - a;
        assert(off < 2 * 8);
        assert(!params.contains(off)) by {
            if params.contains(off) {
                let k = choose|k: int| 0 <= k < params.len() && params[k] == off;
                assert(off == -8 * (k + 1));
            }
        }
        assert(mr.mem[me.rsp - off] == me.mem[me.rsp - off]);
    }
    assert(mf.rdi == m.rdi) by {
        assert(mf.mem[mc.rsp + 8 * (n + 1)] == mc.mem[mc.rsp + 8 * (n + 1)]);
    }
    assert(stored(scope1, slots, mf)) by {
        let back = Machine { rsp: m.rsp, ..mc };
        assert forall|k: int| 0 <= k < scope1.len() implies legal((#[trigger] scope1[k]).1)
            && mf.mem[mf.rsp - slots[k]] == tagged(scope1[k].1) by {
            assert(slots[k] < si * 8);
            assert(back.mem[back.rsp - slots[k]] == tagged(scope1[k].1));
            assert(m.rsp - slots[k] >= mc.rsp + 8 * n);
        }
    }
    assert(kept(m, mf, si, slots)) by {
        assert forall|o: int| o < si * 8 && !slots.contains(o) implies #[trigger] mf.mem[m.rsp
            - o] == m.mem[m.rsp - o] by {
            assert(m.rsp - o >= mc.rsp + 8 * n);
            assert(mc.mem[m.rsp - o] == m.mem[m.rsp - o]);
        }
    }
}

} // verus!
