//! How the state of the processor holds the state of a running program, and
//! what the short instruction sequences of the compiler do to it.

use vstd::prelude::*;
use crate::codegen::{
    choose_bool_code, imm, label, label_name, number_check_code, rax, rbx, same_type_code, slot,
    tag_test_code,
};
use crate::compiler::STACK_INDEX_LIMIT;
use crate::error::CompileErrorView;
use crate::layout::{comparison_jump, compile_expr, number_code, print_code, weight, word_of};
use crate::labels::{lemma_label_is_no_trap, lemma_labels_differ};
use crate::machine::{
    after_print, bit_and, bit_xor, bits, defines, execute, find_ahead, fits, lemma_checked,
    lemma_find_absent, lemma_overflow_check, lemma_run_resume, lemma_single, lemma_wrap_fits,
    prints, resume, run, step, taken, then_run, wrap, Machine, Outcome,
};
use crate::semantics::{in_range, legal, nearest, simple, tagged, Fault, Mode, Scope, Value};
use crate::types::{ExprView, InstrView, Op2, FALSE_VAL, TRUE_VAL};

verus! {

/// The label of the trampoline that reports a fault.
pub open spec fn trap_label(fault: Fault) -> Seq<char> {
    match fault {
        Fault::Overflow => "overflow"@,
        Fault::InvalidArgument => "invalid_arg"@,
    }
}

/// Whether two scopes bind the same names at the same places.
pub open spec fn same_names(a: Scope, b: Scope) -> bool {
    a.len() == b.len() && forall|k: int| 0 <= k < a.len() ==> (#[trigger] a[k]).0 == b[k].0
}

/// Whether the memory holds the scope: each binding has a legal value,
/// whose word lies at the binding's offset below the stack pointer.
pub open spec fn stored(scope: Scope, slots: Seq<int>, m: Machine) -> bool {
    slots.len() == scope.len() && forall|k: int|
        0 <= k < scope.len() ==> legal((#[trigger] scope[k]).1) && m.mem[m.rsp - slots[k]]
            == tagged(scope[k].1)
}

/// Whether the environment describes the scope: it knows the names that
/// the scope binds, and maps each to the offset of its innermost binding;
/// no two bindings share an offset, and every offset lies below slot `si`.
pub open spec fn laid_out(
    scope: Scope,
    slots: Seq<int>,
    env: Map<Seq<char>, i64>,
    si: int,
) -> bool {
    &&& slots.len() == scope.len()
    &&& forall|k: int| 0 <= k < slots.len() ==> (#[trigger] slots[k]) < si * 8
    &&& forall|j: int, k: int| 0 <= j < k < slots.len() ==> slots[j] != slots[k]
    &&& forall|x: Seq<char>| env.contains_key(x) <==> nearest(scope, x) >= 0
    &&& forall|x: Seq<char>| #[trigger]
        env.contains_key(x) ==> env[x] as int == slots[nearest(scope, x)]
}

/// Whether every word below slot `si` that holds no binding is in `after`
/// what it was in `before`.
pub open spec fn kept(before: Machine, after: Machine, si: int, slots: Seq<int>) -> bool {
    forall|off: int|
        off < si * 8 && !slots.contains(off) ==> #[trigger] after.mem[before.rsp - off]
            == before.mem[before.rsp - off]
}

/// What holds when the code of an expression with the value `v` has run
/// from `before` to `after`: the value's word is in `rax`; the stack
/// pointer and `rdi` are as before; the memory holds the scope `scope1`
/// that evaluation has left, which binds the names of `scope`; the words
/// below slot `si` that hold no binding are as before; and with `clean`,
/// the overflow flag is clear.
pub open spec fn arrives(
    before: Machine,
    after: Machine,
    v: Value,
    scope: Scope,
    scope1: Scope,
    slots: Seq<int>,
    si: int,
    clean: bool,
) -> bool {
    &&& after.rax == tagged(v)
    &&& legal(v)
    &&& after.rsp == before.rsp
    &&& after.rdi == before.rdi
    &&& same_names(scope, scope1)
    &&& stored(scope1, slots, after)
    &&& kept(before, after, si, slots)
    &&& clean ==> !after.over
}

/// The innermost binding of a name that a scope binds lies in the scope
/// and has that name.
pub proof fn lemma_nearest_bounds(scope: Scope, x: Seq<char>)
    ensures
        -1 <= nearest(scope, x) < scope.len(),
        nearest(scope, x) >= 0 ==> scope[nearest(scope, x)].0 == x,
        nearest(scope, x) < 0 ==> forall|k: int|
            0 <= k < scope.len() ==> (#[trigger] scope[k]).0 != x,
    decreases scope.len(),
{
    if scope.len() > 0 && scope.last().0 != x {
        lemma_nearest_bounds(scope.drop_last(), x);
        assert forall|k: int| 0 <= k < scope.len() && nearest(scope, x) < 0 implies (
        #[trigger] scope[k]).0 != x by {
            if k < scope.len() - 1 {
                assert(scope.drop_last()[k] == scope[k]);
            }
        }
    }
}

/// Scopes that bind the same names have the innermost binding of each name
/// at the same place.
pub proof fn lemma_nearest_by_names(a: Scope, b: Scope, x: Seq<char>)
    requires
        same_names(a, b),
    ensures
        nearest(a, x) == nearest(b, x),
    decreases a.len(),
{
    if a.len() > 0 {
        assert(a.last().0 == b.last().0);
        if a.last().0 != x {
            assert forall|k: int| 0 <= k < a.len() - 1 implies (#[trigger] a.drop_last()[k]).0
                == b.drop_last()[k].0 by {
                assert(a.drop_last()[k] == a[k]);
                assert(b.drop_last()[k] == b[k]);
            }
            lemma_nearest_by_names(a.drop_last(), b.drop_last(), x);
        }
    }
}

/// A binding that is added is the innermost of its name, and leaves the
/// innermost binding of every other name where it was.
pub proof fn lemma_nearest_push(scope: Scope, y: Seq<char>, v: Value, x: Seq<char>)
    ensures
        nearest(scope.push((y, v)), x) == if x == y {
            scope.len() as int
        } else {
            nearest(scope, x)
        },
{
    let longer = scope.push((y, v));
    assert(longer.last() == (y, v));
    assert(longer.drop_last() =~= scope);
}

/// A layout serves every scope with the same names.
pub proof fn lemma_laid_out_by_names(
    a: Scope,
    b: Scope,
    slots: Seq<int>,
    env: Map<Seq<char>, i64>,
    si: int,
)
    requires
        same_names(a, b),
        laid_out(a, slots, env, si),
    ensures
        laid_out(b, slots, env, si),
{
    assert forall|x: Seq<char>| env.contains_key(x) <==> nearest(b, x) >= 0 by {
        lemma_nearest_by_names(a, b, x);
    }
    assert forall|x: Seq<char>| #[trigger] env.contains_key(x) implies env[x] as int
        == slots[nearest(b, x)] by {
        lemma_nearest_by_names(a, b, x);
    }
}

/// A layout for slot `si` is one for every higher slot.
pub proof fn lemma_laid_out_higher(
    scope: Scope,
    slots: Seq<int>,
    env: Map<Seq<char>, i64>,
    si: int,
    higher: int,
)
    requires
        laid_out(scope, slots, env, si),
        si <= higher,
    ensures
        laid_out(scope, slots, env, higher),
{
}

/// The lowest bit of a word is clear exactly if the word is even.
#[verifier::rlimit(60)]
pub proof fn lemma_low_bit(a: int)
    requires
        fits(a),
    ensures
        (bit_and(a, 1) == 0) == (a % 2 == 0),
{
    let x = bits(a);
    assert(x & 1 == x % 2) by (bit_vector);
    assert(bits(1) == 1u64);
    assert(x as int % 2 == a % 2);
}

/// The lowest bit of the exclusive or of two words is clear exactly if
/// both are even or both are odd.
#[verifier::rlimit(60)]
pub proof fn lemma_low_bit_xor(a: int, b: int)
    requires
        fits(a),
        fits(b),
    ensures
        fits(bit_xor(a, b)),
        (bit_and(bit_xor(a, b), 1) == 0) == (a % 2 == b % 2),
{
    let x = bits(a);
    let y = bits(b);
    let z = x ^ y;
    assert(((x ^ y) & 1 == 0) == (x % 2 == y % 2)) by (bit_vector);
    assert(x as int % 2 == a % 2);
    assert(y as int % 2 == b % 2);
    assert(bits(1) == 1u64);
    assert(bits(wrap(z as int)) == z);
}

/// Whether two states differ in the flags at most.
pub open spec fn same_data(a: Machine, b: Machine) -> bool {
    a.rax == b.rax && a.rbx == b.rbx && a.rdi == b.rdi && a.rsp == b.rsp && a.mem == b.mem
}

/// Whether `rsp` is a stack pointer as a function finds it on entry: 8 off
/// a multiple of 16, and far from the ends of the address space.
pub open spec fn at_entry(rsp: int) -> bool {
    rsp % 16 == 8 && -0x4000_0000_0000_0000 <= rsp <= 0x4000_0000_0000_0000
}

/// What is asked before the code of the expression `e` runs: `e` is simple
/// in the mode `mode`; the overflow flag is clear, unless `e` does not read
/// `input`; the stack pointer is as on entry to a function; the stack
/// index leaves room; the environment describes the scope, and the memory
/// holds it; and `rdi` holds the word of the input.
pub open spec fn ready(
    e: ExprView,
    si: int,
    env: Map<Seq<char>, i64>,
    scope: Scope,
    slots: Seq<int>,
    input: Value,
    m: Machine,
    mode: Mode,
) -> bool {
    &&& simple(e, mode)
    &&& mode != Mode::Closed ==> !m.over
    &&& at_entry(m.rsp)
    &&& 0 <= si
    &&& si + weight(e) <= STACK_INDEX_LIMIT
    &&& laid_out(scope, slots, env, si)
    &&& stored(scope, slots, m)
    &&& legal(input)
    &&& m.rdi == tagged(input)
}

/// Whether running `code` from `m` does what `outcome` says: with a value,
/// control falls off the end and the state has arrived at the value; with a
/// fault, control leaves for the trampoline of the fault.
pub open spec fn sound(
    code: Seq<InstrView>,
    m: Machine,
    outcome: Result<(Value, Scope), Fault>,
    scope: Scope,
    slots: Seq<int>,
    si: int,
    clean: bool,
) -> bool {
    match outcome {
        Ok((v, scope1)) => execute(code, m) matches Outcome::Done(m1) && arrives(
            m,
            m1,
            v,
            scope,
            scope1,
            slots,
            si,
            clean,
        ),
        Err(fault) => execute(code, m) matches Outcome::Leaves(name, _) && name == trap_label(
            fault,
        ),
    }
}

/// Whether a list of instructions does not define the label `name`.
pub open spec fn misses(code: Seq<InstrView>, name: Seq<char>) -> bool {
    forall|j: int| 0 <= j < code.len() ==> !defines(#[trigger] code[j], name)
}

/// Whether a list of instructions defines neither trampoline.
pub open spec fn safe(code: Seq<InstrView>) -> bool {
    misses(code, "invalid_arg"@) && misses(code, "overflow"@)
}

/// Whether control has fallen off the end or left for a trampoline.
pub open spec fn traps_only(o: Outcome) -> bool {
    o is Done || (o matches Outcome::Leaves(name, _) && (name == "invalid_arg"@ || name
        == "overflow"@))
}

/// Two lists that do not define a label make one that does not define it.
pub proof fn lemma_misses_concat(a: Seq<InstrView>, b: Seq<InstrView>, name: Seq<char>)
    requires
        misses(a, name),
        misses(b, name),
    ensures
        misses(a + b, name),
{
    assert forall|j: int| 0 <= j < (a + b).len() implies !defines(
        #[trigger] (a + b)[j],
        name,
    ) by {
        if j < a.len() {
            assert((a + b)[j] == a[j]);
        } else {
            assert((a + b)[j] == b[j - a.len()]);
        }
    }
}

/// Control that has left for a label passes a list that does not define the
/// label.
pub proof fn lemma_pass(o: Outcome, rest: Seq<InstrView>)
    requires
        o matches Outcome::Leaves(name, _) && misses(rest, name),
    ensures
        resume(o, rest) == o,
{
    lemma_find_absent(rest, 0, o->Leaves_0);
}

/// Control that has left for a label enters a list at the place where the
/// list first defines the label.
pub proof fn lemma_land(o: Outcome, rest: Seq<InstrView>, j: int)
    requires
        0 <= j < rest.len(),
        o matches Outcome::Leaves(name, _) && defines(rest[j], name) && forall|i: int|
            0 <= i < j ==> !defines(#[trigger] rest[i], name),
    ensures
        resume(o, rest) == run(rest, j + 1, o->Leaves_1),
{
    lemma_found(rest, 0, j, o->Leaves_0);
}

/// The search for a label finds its first definition.
pub proof fn lemma_found(code: Seq<InstrView>, from: int, j: int, name: Seq<char>)
    requires
        0 <= from <= j < code.len(),
        defines(code[j], name),
        forall|i: int| from <= i < j ==> !defines(#[trigger] code[i], name),
    ensures
        find_ahead(code, from, name) == j,
    decreases j - from,
{
    if from < j {
        lemma_found(code, from + 1, j, name);
    }
}

/// Behind a list whose end control falls off, the next list runs from the
/// state that the first has left.
pub proof fn lemma_next(first: Seq<InstrView>, rest: Seq<InstrView>, m: Machine)
    requires
        execute(first, m) is Done,
    ensures
        execute(first + rest, m) == execute(rest, execute(first, m)->Done_0),
{
    lemma_run_resume(first, rest, 0, m);
}

/// Code that defines neither trampoline is not entered by control that has
/// left for one.
pub proof fn lemma_abort(first: Seq<InstrView>, rest: Seq<InstrView>, m: Machine)
    requires
        safe(rest),
        execute(first, m) is Leaves,
        traps_only(execute(first, m)),
    ensures
        execute(first + rest, m) == execute(first, m),
{
    lemma_run_resume(first, rest, 0, m);
    lemma_pass(execute(first, m), rest);
}

/// Before code that defines neither trampoline, a list runs as it does
/// alone, and the code behind it runs if control falls off its end;
/// provided that control leaves the list in no other way than for a
/// trampoline.
pub proof fn lemma_then(first: Seq<InstrView>, rest: Seq<InstrView>, m: Machine)
    requires
        safe(rest),
    ensures
        traps_only(execute(first, m)) ==> execute(first + rest, m) == then_run(
            execute(first, m),
            rest,
        ),
{
    lemma_run_resume(first, rest, 0, m);
    if execute(first, m) is Leaves && traps_only(execute(first, m)) {
        lemma_pass(execute(first, m), rest);
    }
}

/// The number check lets an even word pass, with the overflow flag clear,
/// and sends an odd word to the invalid-argument trampoline.
#[verifier::rlimit(60)]
pub proof fn lemma_number_check(m: Machine)
    requires
        fits(m.rax),
    ensures
        m.rax % 2 == 0 ==> (execute(number_check_code(), m) matches Outcome::Done(m1)
            && same_data(m, m1) && !m1.over),
        m.rax % 2 != 0 ==> (execute(number_check_code(), m) matches Outcome::Leaves(name, _)
            && name == "invalid_arg"@),
{
    let code = number_check_code();
    lemma_low_bit(m.rax);
    assert(wrap(1) == 1);
    let m1 = step(m, code[0]);
    assert(m1.zero == (m.rax % 2 == 0));
    lemma_find_absent(code, 2, "invalid_arg"@);
    reveal_with_fuel(run, 3);
}

/// The code of a number literal of the language leaves the word of the
/// number in `rax`, with the overflow flag clear.
#[verifier::rlimit(60)]
pub proof fn lemma_number(n: int, m: Machine)
    requires
        in_range(n),
    ensures
        execute(number_code(n), m) matches Outcome::Done(m1) && m1.rax == 2 * n && m1.rbx == m.rbx
            && m1.rdi == m.rdi && m1.rsp == m.rsp && m1.mem == m.mem && !m1.over,
{
    assert(wrap(word_of(n)) == n);
    reveal_with_fuel(run, 3);
}

/// What is kept over two runs, one after the other, is kept over both.
pub proof fn lemma_kept_chain(a: Machine, b: Machine, c: Machine, si: int, slots: Seq<int>)
    requires
        kept(a, b, si, slots),
        kept(b, c, si, slots),
        a.rsp == b.rsp,
    ensures
        kept(a, c, si, slots),
{
    assert forall|off: int| off < si * 8 && !slots.contains(off) implies #[trigger] c.mem[a.rsp
        - off] == a.mem[a.rsp - off] by {
        assert(c.mem[b.rsp - off] == b.mem[b.rsp - off]);
        assert(b.mem[a.rsp - off] == a.mem[a.rsp - off]);
    }
}

/// Saving `rax` in slot `si` keeps the scope in memory and every word below
/// slot `si`.
#[verifier::rlimit(60)]
pub proof fn lemma_save(
    m: Machine,
    si: int,
    scope: Scope,
    slots: Seq<int>,
    env: Map<Seq<char>, i64>,
)
    requires
        stored(scope, slots, m),
        laid_out(scope, slots, env, si),
    ensures
        execute(seq![InstrView::IMov(slot(si), rax())], m) matches Outcome::Done(m1) && m1.rax
            == m.rax && m1.rdi == m.rdi && m1.rsp == m.rsp && m1.over == m.over && m1.mem
            == m.mem.insert(m.rsp - si * 8, m.rax) && stored(scope, slots, m1) && kept(
            m,
            m1,
            si,
            slots,
        ),
{
    reveal_with_fuel(run, 2);
    let m1 = execute(seq![InstrView::IMov(slot(si), rax())], m)->Done_0;
    assert forall|k: int| 0 <= k < scope.len() implies legal((#[trigger] scope[k]).1)
        && m1.mem[m1.rsp - slots[k]] == tagged(scope[k].1) by {
        assert(slots[k] < si * 8);
    }
}

/// No binding lies in slot `si` or beyond.
pub proof fn lemma_slot_free(
    scope: Scope,
    slots: Seq<int>,
    env: Map<Seq<char>, i64>,
    si: int,
    off: int,
)
    requires
        laid_out(scope, slots, env, si),
        off >= si * 8,
    ensures
        !slots.contains(off),
{
    if slots.contains(off) {
        let k = choose|k: int| 0 <= k < slots.len() && slots[k] == off;
        assert(slots[k] < si * 8);
    }
}

/// The offsets of the bindings of a scope, followed by those of the first
/// `n` bindings of a `let` that is compiled at stack index `si`.
pub open spec fn extended_slots(slots: Seq<int>, si: int, n: int) -> Seq<int> {
    slots + Seq::new(n as nat, |i: int| (si + i) * 8)
}

/// An offset below slot `si` that holds no binding of the scope holds none
/// of the bindings that a `let` adds.
pub proof fn lemma_not_in_extended(slots: Seq<int>, si: int, n: int, off: int)
    requires
        off < si * 8,
        !slots.contains(off),
        0 <= n,
    ensures
        !extended_slots(slots, si, n).contains(off),
{
    let longer = extended_slots(slots, si, n);
    if longer.contains(off) {
        let k = choose|k: int| 0 <= k < longer.len() && longer[k] == off;
        if k < slots.len() {
            assert(slots[k] == off);
        }
    }
}

/// The last part of the code of `=`: the comparison and the choice of the
/// boolean.
pub open spec fn choose_equal_code(si: int) -> Seq<InstrView> {
    seq![
        InstrView::Cmp(rax(), slot(si)),
        InstrView::IMov(rbx(), imm(TRUE_VAL as int)),
        InstrView::IMov(rax(), imm(FALSE_VAL as int)),
        InstrView::Cmove(rax(), rbx()),
    ]
}

/// The same-type check lets two words pass that are both even or both odd,
/// and sends two others to the invalid-argument trampoline.
#[verifier::rlimit(60)]
pub proof fn lemma_same_type(m: Machine, offset: int)
    requires
        fits(m.rax),
        fits(m.mem[m.rsp - offset]),
    ensures
        m.rax % 2 == m.mem[m.rsp - offset] % 2 ==> (execute(
            same_type_code(offset),
            m,
        ) matches Outcome::Done(m1) && m1.rax == m.rax && m1.rdi == m.rdi && m1.rsp == m.rsp
            && m1.mem == m.mem),
        m.rax % 2 != m.mem[m.rsp - offset] % 2 ==> (execute(
            same_type_code(offset),
            m,
        ) matches Outcome::Leaves(name, _) && name == "invalid_arg"@),
{
    let code = same_type_code(offset);
    let other = m.mem[m.rsp - offset];
    lemma_low_bit_xor(m.rax, other);
    assert(wrap(1) == 1);
    let m1 = step(m, code[0]);
    let m2 = step(m1, code[1]);
    assert(m2.rbx == bit_xor(m.rax, other));
    let m3 = step(m2, code[2]);
    assert(m3.zero == (m.rax % 2 == other % 2));
    lemma_find_absent(code, 4, "invalid_arg"@);
    reveal_with_fuel(run, 5);
}

/// The last part of the code of `=` leaves true in `rax` if `rax` and the
/// saved word are the same, and false if not.
#[verifier::rlimit(60)]
pub proof fn lemma_choose_equal(m: Machine, si: int)
    requires
        fits(m.rax),
        fits(m.mem[m.rsp - si * 8]),
    ensures
        execute(choose_equal_code(si), m) matches Outcome::Done(m1) && m1.rax == (if m.rax
            == m.mem[m.rsp - si * 8] {
            3int
        } else {
            1int
        }) && m1.rdi == m.rdi && m1.rsp == m.rsp && m1.mem == m.mem,
{
    assert(wrap(3) == 3 && wrap(1) == 1);
    reveal_with_fuel(run, 5);
}

/// The instruction of `+`, `-` or `*` that follows the checked operands.
pub open spec fn arith_instr(op: Op2, si: int) -> InstrView {
    match op {
        Op2::Plus => InstrView::IAdd(rax(), slot(si)),
        Op2::Minus => InstrView::ISub(rax(), slot(si)),
        _ => InstrView::Shr(rax(), imm(1)),
    }
}

/// The instructions of `+`, `-` or `*` that follow `arith_instr`.
pub open spec fn arith_tail(op: Op2, si: int) -> Seq<InstrView> {
    if op == Op2::Times {
        seq![InstrView::IMul(rax(), slot(si)), InstrView::OverFlow()]
    } else {
        seq![InstrView::OverFlow()]
    }
}

/// The result of `+`, `-` or `*` on the number `n1` that was computed
/// first and the number `n2` that was computed second.
pub open spec fn arith_result(op: Op2, n1: int, n2: int) -> int {
    match op {
        Op2::Plus => n1 + n2,
        Op2::Minus => n2 - n1,
        _ => n1 * n2,
    }
}

/// The instructions of `+`, `-` or `*`, run with the word of the second
/// number in `rax` and the word of the first in slot `si`, leave the word of
/// the result in `rax` with the overflow flag clear, or leave for the
/// overflow trampoline if the result is no number of the language.
pub proof fn lemma_arith_glue(op: Op2, m: Machine, si: int, n1: int, n2: int)
    requires
        op == Op2::Plus || op == Op2::Minus || op == Op2::Times,
        in_range(n1),
        in_range(n2),
        m.rax == 2 * n2,
        m.mem[m.rsp - si * 8] == 2 * n1,
    ensures
        in_range(arith_result(op, n1, n2)) ==> (then_run(
            execute(seq![arith_instr(op, si)], m),
            arith_tail(op, si),
        ) matches Outcome::Done(m1) && m1.rax == 2 * arith_result(op, n1, n2) && m1.rdi == m.rdi
            && m1.rsp == m.rsp && m1.mem == m.mem && !m1.over),
        !in_range(arith_result(op, n1, n2)) ==> (then_run(
            execute(seq![arith_instr(op, si)], m),
            arith_tail(op, si),
        ) matches Outcome::Leaves(name, _) && name == "overflow"@),
{
    let arith = arith_instr(op, si);
    let m1 = step(m, arith);
    lemma_single(arith, m);
    if op == Op2::Times {
        let product = n1 * n2;
        assert(n2 * (2 * n1) == 2 * product) by (nonlinear_arith)
            requires
                product == n1 * n2,
        ;
        assert(m1.rax == n2);
        assert(m1.mem == m.mem && m1.rsp == m.rsp && m1.rdi == m.rdi);
        let mul = InstrView::IMul(rax(), slot(si));
        let m2 = step(m1, mul);
        lemma_checked(mul, m1);
        let exact = 2 * product;
        assert(m1.read(rax()) * m1.read(slot(si)) == exact);
        assert(m2.over == !fits(exact));
        assert(fits(exact) == in_range(product));
        if fits(exact) {
            lemma_wrap_fits(exact);
            assert(m2.rax == exact);
        }
        assert(m2.mem == m.mem && m2.rsp == m.rsp && m2.rdi == m.rdi);
    } else {
        lemma_overflow_check(m1);
        let exact = if op == Op2::Plus {
            2 * n2 + 2 * n1
        } else {
            2 * n2 - 2 * n1
        };
        assert(m1.over == !fits(exact));
        assert(fits(exact) == in_range(arith_result(op, n1, n2)));
        if fits(exact) {
            lemma_wrap_fits(exact);
            assert(m1.rax == exact);
        }
        assert(m1.mem == m.mem && m1.rsp == m.rsp && m1.rdi == m.rdi);
    }
}

/// The operand that a binary operator computes first, at stack index `si`.
pub open spec fn first_operand(e: ExprView) -> ExprView {
    if e->BinOp_0 == Op2::Minus || e->BinOp_0 == Op2::Equal {
        *e->BinOp_2
    } else {
        *e->BinOp_1
    }
}

/// The operand that a binary operator computes second, at stack index
/// `si + 1`.
pub open spec fn second_operand(e: ExprView) -> ExprView {
    if e->BinOp_0 == Op2::Minus || e->BinOp_0 == Op2::Equal {
        *e->BinOp_1
    } else {
        *e->BinOp_2
    }
}

/// Whether an operator is an ordered comparison.
pub open spec fn ordered(op: Op2) -> bool {
    op == Op2::Greater || op == Op2::GreaterEqual || op == Op2::Less || op == Op2::LessEqual
}

/// The last part of the code of an ordered comparison: the jump on its
/// condition, and the choice of the boolean, with the two labels that the
/// counter value `l` gives.
pub open spec fn select_code(op: Op2, l: int) -> Seq<InstrView> {
    seq![comparison_jump(op, label(label_name("if"@, l)))] + choose_bool_code(
        label_name("endif"@, l + 1),
        label_name("if"@, l),
    )
}

/// The code of `=` behind its operands: the check that both have one type,
/// the comparison and the choice of the boolean.
pub open spec fn equal_tail(si: int) -> Seq<InstrView> {
    same_type_code(si * 8) + choose_equal_code(si)
}

/// The code between the operands of `+`, `-` or `*`: the check that the
/// first is a number, and the instruction that saves it in slot `si`.
pub open spec fn guard_code(si: int) -> Seq<InstrView> {
    number_check_code() + seq![InstrView::IMov(slot(si), rax())]
}

/// The code of `+`, `-` or `*` behind its operands: the check that the
/// second is a number, and the instructions of the operator.
pub open spec fn arith_finish(op: Op2, si: int) -> Seq<InstrView> {
    number_check_code() + seq![arith_instr(op, si)] + arith_tail(op, si)
}

/// The code of a binary operator, from the codes of its operands; `l` is
/// the counter value behind both.
pub open spec fn operator_code(
    op: Op2,
    c1: Seq<InstrView>,
    c2: Seq<InstrView>,
    si: int,
    l: int,
) -> Seq<InstrView> {
    if op == Op2::Equal {
        c1 + seq![InstrView::IMov(slot(si), rax())] + c2 + equal_tail(si)
    } else if ordered(op) {
        c1 + seq![InstrView::IMov(slot(si), rax())] + c2 + ordered_tail(op, l, si)
    } else {
        c1 + guard_code(si) + c2 + arith_finish(op, si)
    }
}

/// What compiling the operands of a binary operator gives: the code of the
/// operand that runs first with the counter values before and behind it,
/// and the same for the operand that runs second.
pub struct Operands {
    pub first: Seq<InstrView>,
    pub first_from: int,
    pub first_to: int,
    pub second: Seq<InstrView>,
    pub second_from: int,
    pub second_to: int,
    /// The counter value behind both.
    pub behind: int,
}

/// The code of a binary operator is made of the code of the operand that
/// runs first, the code of the operand that runs second, and the
/// instructions of the operator around them.
pub proof fn lemma_operand_codes(
    e: ExprView,
    si: int,
    env: Map<Seq<char>, i64>,
    l: int,
    brk: Seq<char>,
    funcs: Set<Seq<char>>,
) -> (parts: Operands)
    requires
        e is BinOp,
        compile_expr(e, si, env, l, brk, funcs) is Ok,
    ensures
        compile_expr(first_operand(e), si, env, parts.first_from, brk, funcs) == Ok::<
            (Seq<InstrView>, int),
            CompileErrorView,
        >((parts.first, parts.first_to)),
        compile_expr(second_operand(e), si + 1, env, parts.second_from, brk, funcs) == Ok::<
            (Seq<InstrView>, int),
            CompileErrorView,
        >((parts.second, parts.second_to)),
        (parts.first_from == l && parts.second_from == parts.first_to && parts.behind
            == parts.second_to) || (parts.second_from == l && parts.first_from == parts.second_to
            && parts.behind == parts.first_to),
        compile_expr(e, si, env, l, brk, funcs)->Ok_0.0 == operator_code(
            e->BinOp_0,
            parts.first,
            parts.second,
            si,
            parts.behind,
        ),
        compile_expr(e, si, env, l, brk, funcs)->Ok_0.1 == parts.behind + (if ordered(
            e->BinOp_0,
        ) {
            2int
        } else {
            0int
        }),
{
    if ordered(e->BinOp_0) {
        lemma_operands_ordered(e, si, env, l, brk, funcs)
    } else if e->BinOp_0 == Op2::Times {
        lemma_operands_times(e, si, env, l, brk, funcs)
    } else if e->BinOp_0 == Op2::Plus {
        lemma_operands_plus(e, si, env, l, brk, funcs)
    } else {
        lemma_operands_swapped(e, si, env, l, brk, funcs)
    }
}

/// The parts of the code of an ordered comparison.
pub proof fn lemma_operands_ordered(
    e: ExprView,
    si: int,
    env: Map<Seq<char>, i64>,
    l: int,
    brk: Seq<char>,
    funcs: Set<Seq<char>>,
) -> (parts: Operands)
    requires
        e is BinOp,
        compile_expr(e, si, env, l, brk, funcs) is Ok,
        ordered(e->BinOp_0),
    ensures
        compile_expr(first_operand(e), si, env, parts.first_from, brk, funcs) == Ok::<
            (Seq<InstrView>, int),
            CompileErrorView,
        >((parts.first, parts.first_to)),
        compile_expr(second_operand(e), si + 1, env, parts.second_from, brk, funcs) == Ok::<
            (Seq<InstrView>, int),
            CompileErrorView,
        >((parts.second, parts.second_to)),
        (parts.first_from == l && parts.second_from == parts.first_to && parts.behind
            == parts.second_to) || (parts.second_from == l && parts.first_from == parts.second_to
            && parts.behind == parts.first_to),
        compile_expr(e, si, env, l, brk, funcs)->Ok_0.0 == operator_code(
            e->BinOp_0,
            parts.first,
            parts.second,
            si,
            parts.behind,
        ),
        compile_expr(e, si, env, l, brk, funcs)->Ok_0.1 == parts.behind + (if ordered(
            e->BinOp_0,
        ) {
            2int
        } else {
            0int
        }),
{
    let a = *e->BinOp_1;
    let b = *e->BinOp_2;
    let (c1, l1) = compile_expr(a, si, env, l, brk, funcs)->Ok_0;
    let (c2, l2) = compile_expr(b, si + 1, env, l1, brk, funcs)->Ok_0;
    let op = e->BinOp_0;
    let save = seq![InstrView::IMov(slot(si), rax())];
    let same = same_type_code(si * 8);
    let check = number_check_code();
    let cmp = seq![InstrView::Cmp(slot(si), rax())];
    let jump = seq![comparison_jump(op, label(label_name("if"@, l2)))];
    let choose = choose_bool_code(label_name("endif"@, l2 + 1), label_name("if"@, l2));
    let pair = c1 + save + c2;
    assert(compile_expr(e, si, env, l, brk, funcs)->Ok_0.0 == pair + same + check + cmp + jump
        + choose);
    vstd::seq_lib::lemma_concat_associative(pair + same + check + cmp, jump, choose);
    vstd::seq_lib::lemma_concat_associative(pair + same + check, cmp, jump + choose);
    vstd::seq_lib::lemma_concat_associative(pair + same, check, cmp + (jump + choose));
    vstd::seq_lib::lemma_concat_associative(pair, same, check + (cmp + (jump + choose)));
    vstd::seq_lib::lemma_concat_associative(same, check, cmp + (jump + choose));
    vstd::seq_lib::lemma_concat_associative(same + check, cmp, jump + choose);
    assert(ordered_tail(op, l2, si) == same + check + cmp + (jump + choose));
    Operands {
        first: c1,
        first_from: l,
        first_to: l1,
        second: c2,
        second_from: l1,
        second_to: l2,
        behind: l2,
    }
}

/// The parts of the code of `*`.
pub proof fn lemma_operands_times(
    e: ExprView,
    si: int,
    env: Map<Seq<char>, i64>,
    l: int,
    brk: Seq<char>,
    funcs: Set<Seq<char>>,
) -> (parts: Operands)
    requires
        e is BinOp,
        compile_expr(e, si, env, l, brk, funcs) is Ok,
        e->BinOp_0 == Op2::Times,
    ensures
        compile_expr(first_operand(e), si, env, parts.first_from, brk, funcs) == Ok::<
            (Seq<InstrView>, int),
            CompileErrorView,
        >((parts.first, parts.first_to)),
        compile_expr(second_operand(e), si + 1, env, parts.second_from, brk, funcs) == Ok::<
            (Seq<InstrView>, int),
            CompileErrorView,
        >((parts.second, parts.second_to)),
        (parts.first_from == l && parts.second_from == parts.first_to && parts.behind
            == parts.second_to) || (parts.second_from == l && parts.first_from == parts.second_to
            && parts.behind == parts.first_to),
        compile_expr(e, si, env, l, brk, funcs)->Ok_0.0 == operator_code(
            e->BinOp_0,
            parts.first,
            parts.second,
            si,
            parts.behind,
        ),
        compile_expr(e, si, env, l, brk, funcs)->Ok_0.1 == parts.behind + (if ordered(
            e->BinOp_0,
        ) {
            2int
        } else {
            0int
        }),
{
    let a = *e->BinOp_1;
    let b = *e->BinOp_2;
    let (c2, l1) = compile_expr(b, si + 1, env, l, brk, funcs)->Ok_0;
    let (c1, l2) = compile_expr(a, si, env, l1, brk, funcs)->Ok_0;
    let op = e->BinOp_0;
    let check = number_check_code();
    let save = seq![InstrView::IMov(slot(si), rax())];
    let arith = seq![arith_instr(op, si)];
    let tail = arith_tail(op, si);
    assert(compile_expr(e, si, env, l, brk, funcs)->Ok_0.0 == c1 + check + save + c2 + check
        + arith + tail);
    vstd::seq_lib::lemma_concat_associative(c1 + check + save + c2 + check, arith, tail);
    vstd::seq_lib::lemma_concat_associative(c1 + check + save + c2, check, arith + tail);
    vstd::seq_lib::lemma_concat_associative(check, arith, tail);
    vstd::seq_lib::lemma_concat_associative(c1, check, save);
    assert(compile_expr(e, si, env, l, brk, funcs)->Ok_0.0 == c1 + guard_code(si) + c2
        + arith_finish(op, si));
    Operands {
        first: c1,
        first_from: l1,
        first_to: l2,
        second: c2,
        second_from: l,
        second_to: l1,
        behind: l2,
    }
}

/// The parts of the code of `+`.
pub proof fn lemma_operands_plus(
    e: ExprView,
    si: int,
    env: Map<Seq<char>, i64>,
    l: int,
    brk: Seq<char>,
    funcs: Set<Seq<char>>,
) -> (parts: Operands)
    requires
        e is BinOp,
        compile_expr(e, si, env, l, brk, funcs) is Ok,
        e->BinOp_0 == Op2::Plus,
    ensures
        compile_expr(first_operand(e), si, env, parts.first_from, brk, funcs) == Ok::<
            (Seq<InstrView>, int),
            CompileErrorView,
        >((parts.first, parts.first_to)),
        compile_expr(second_operand(e), si + 1, env, parts.second_from, brk, funcs) == Ok::<
            (Seq<InstrView>, int),
            CompileErrorView,
        >((parts.second, parts.second_to)),
        (parts.first_from == l && parts.second_from == parts.first_to && parts.behind
            == parts.second_to) || (parts.second_from == l && parts.first_from == parts.second_to
            && parts.behind == parts.first_to),
        compile_expr(e, si, env, l, brk, funcs)->Ok_0.0 == operator_code(
            e->BinOp_0,
            parts.first,
            parts.second,
            si,
            parts.behind,
        ),
        compile_expr(e, si, env, l, brk, funcs)->Ok_0.1 == parts.behind + (if ordered(
            e->BinOp_0,
        ) {
            2int
        } else {
            0int
        }),
{
    let a = *e->BinOp_1;
    let b = *e->BinOp_2;
    let (c1, l1) = compile_expr(a, si, env, l, brk, funcs)->Ok_0;
    let (c2, l2) = compile_expr(b, si + 1, env, l1, brk, funcs)->Ok_0;
    let op = e->BinOp_0;
    let check = number_check_code();
    let save = seq![InstrView::IMov(slot(si), rax())];
    let arith = seq![arith_instr(op, si)];
    let tail = arith_tail(op, si);
    assert(compile_expr(e, si, env, l, brk, funcs)->Ok_0.0 == c1 + check + save + c2 + check
        + arith + tail);
    vstd::seq_lib::lemma_concat_associative(c1 + check + save + c2 + check, arith, tail);
    vstd::seq_lib::lemma_concat_associative(c1 + check + save + c2, check, arith + tail);
    vstd::seq_lib::lemma_concat_associative(check, arith, tail);
    vstd::seq_lib::lemma_concat_associative(c1, check, save);
    assert(compile_expr(e, si, env, l, brk, funcs)->Ok_0.0 == c1 + guard_code(si) + c2
        + arith_finish(op, si));
    Operands {
        first: c1,
        first_from: l,
        first_to: l1,
        second: c2,
        second_from: l1,
        second_to: l2,
        behind: l2,
    }
}

/// The parts of the code of `-` or `=`.
pub proof fn lemma_operands_swapped(
    e: ExprView,
    si: int,
    env: Map<Seq<char>, i64>,
    l: int,
    brk: Seq<char>,
    funcs: Set<Seq<char>>,
) -> (parts: Operands)
    requires
        e is BinOp,
        compile_expr(e, si, env, l, brk, funcs) is Ok,
        e->BinOp_0 == Op2::Minus || e->BinOp_0 == Op2::Equal,
    ensures
        compile_expr(first_operand(e), si, env, parts.first_from, brk, funcs) == Ok::<
            (Seq<InstrView>, int),
            CompileErrorView,
        >((parts.first, parts.first_to)),
        compile_expr(second_operand(e), si + 1, env, parts.second_from, brk, funcs) == Ok::<
            (Seq<InstrView>, int),
            CompileErrorView,
        >((parts.second, parts.second_to)),
        (parts.first_from == l && parts.second_from == parts.first_to && parts.behind
            == parts.second_to) || (parts.second_from == l && parts.first_from == parts.second_to
            && parts.behind == parts.first_to),
        compile_expr(e, si, env, l, brk, funcs)->Ok_0.0 == operator_code(
            e->BinOp_0,
            parts.first,
            parts.second,
            si,
            parts.behind,
        ),
        compile_expr(e, si, env, l, brk, funcs)->Ok_0.1 == parts.behind + (if ordered(
            e->BinOp_0,
        ) {
            2int
        } else {
            0int
        }),
{
    let a = *e->BinOp_1;
    let b = *e->BinOp_2;
    let (c1, l1) = compile_expr(b, si, env, l, brk, funcs)->Ok_0;
    let (c2, l2) = compile_expr(a, si + 1, env, l1, brk, funcs)->Ok_0;
    if e->BinOp_0 == Op2::Equal {
        let save = seq![InstrView::IMov(slot(si), rax())];
        vstd::seq_lib::lemma_concat_associative(
            c1 + save + c2,
            same_type_code(si * 8),
            choose_equal_code(si),
        );
    } else {
        let op = e->BinOp_0;
        let check = number_check_code();
        let save = seq![InstrView::IMov(slot(si), rax())];
        let arith = seq![arith_instr(op, si)];
        let tail = arith_tail(op, si);
        assert(compile_expr(e, si, env, l, brk, funcs)->Ok_0.0 == c1 + check + save + c2 + check
            + arith + tail);
        vstd::seq_lib::lemma_concat_associative(c1 + check + save + c2 + check, arith, tail);
        vstd::seq_lib::lemma_concat_associative(c1 + check + save + c2, check, arith + tail);
        vstd::seq_lib::lemma_concat_associative(check, arith, tail);
        vstd::seq_lib::lemma_concat_associative(c1, check, save);
        assert(compile_expr(e, si, env, l, brk, funcs)->Ok_0.0 == c1 + guard_code(si) + c2
            + arith_finish(op, si));
    }
    Operands {
        first: c1,
        first_from: l,
        first_to: l1,
        second: c2,
        second_from: l1,
        second_to: l2,
        behind: l2,
    }
}

/// The code of `isnum` or `isbool` behind its operand leaves in `rax` the
/// word of the boolean that says whether the lowest bit of `rax` was set as
/// asked, with the overflow flag clear.
#[verifier::rlimit(60)]
pub proof fn lemma_tag_test(l: int, on_set: bool, m: Machine)
    requires
        l >= 0,
        fits(m.rax),
    ensures
        execute(tag_test_code(l, on_set), m) matches Outcome::Done(m1) && m1.rax == (if (m.rax % 2
            != 0) == on_set {
            3int
        } else {
            1int
        }) && m1.rdi == m.rdi && m1.rsp == m.rsp && m1.mem == m.mem && !m1.over,
{
    let code = tag_test_code(l, on_set);
    let cond_label = label_name("if"@, l);
    let end_label = label_name("endif"@, l + 1);
    lemma_labels_differ("if"@, l, "endif"@, l + 1);
    lemma_low_bit(m.rax);
    assert(wrap(1) == 1 && wrap(3) == 3);
    let m1 = step(m, code[0]);
    assert(m1.zero == (m.rax % 2 == 0));
    assert(!m1.over);
    lemma_found(code, 2, 4, cond_label);
    lemma_found(code, 4, 6, end_label);
    reveal_with_fuel(run, 5);
}

/// Whether an ordered comparison holds of two numbers.
pub open spec fn compares(op: Op2, n1: int, n2: int) -> bool {
    match op {
        Op2::Greater => n1 > n2,
        Op2::GreaterEqual => n1 >= n2,
        Op2::Less => n1 < n2,
        _ => n1 <= n2,
    }
}

/// The comparison of the saved word of a number with the word of a number
/// in `rax`, the jump on the condition and the choice of the boolean leave
/// in `rax` the word of the boolean that says whether the comparison holds
/// of the two numbers.
#[verifier::rlimit(60)]
pub proof fn lemma_select(op: Op2, l: int, m: Machine, si: int, n1: int, n2: int)
    requires
        ordered(op),
        l >= 0,
        in_range(n1),
        in_range(n2),
        m.mem[m.rsp - si * 8] == 2 * n1,
        m.rax == 2 * n2,
    ensures
        then_run(
            execute(seq![InstrView::Cmp(slot(si), rax())], m),
            select_code(op, l),
        ) matches Outcome::Done(m1) && m1.rax == (if compares(op, n1, n2) {
            3int
        } else {
            1int
        }) && m1.rdi == m.rdi && m1.rsp == m.rsp && m1.mem == m.mem,
{
    let cmp = seq![InstrView::Cmp(slot(si), rax())];
    let code = select_code(op, l);
    let cond_label = label_name("if"@, l);
    let end_label = label_name("endif"@, l + 1);
    lemma_labels_differ("if"@, l, "endif"@, l + 1);
    assert(wrap(1) == 1 && wrap(3) == 3);
    let m1 = step(m, cmp[0]);
    let exact = 2 * n1 - 2 * n2;
    if exact >= 0x8000_0000_0000_0000 {
        assert(wrap(exact) == exact - 0x1_0000_0000_0000_0000);
    } else if exact < -0x8000_0000_0000_0000 {
        assert(wrap(exact) == exact + 0x1_0000_0000_0000_0000);
    } else {
        assert(wrap(exact) == exact);
    }
    assert(m1.zero == (n1 == n2));
    assert((m1.sign != m1.over) == (n1 < n2));
    assert(taken(code[0], m1) == compares(op, n1, n2));
    assert(code[3] == InstrView::Label(label(cond_label)));
    assert(code[5] == InstrView::Label(label(end_label)));
    lemma_found(code, 1, 3, cond_label);
    lemma_found(code, 3, 5, end_label);
    reveal_with_fuel(run, 5);
    assert(execute(cmp, m) == Outcome::Done(m1));
}

/// The labels of a conditional are not the names of the trampolines, so
/// the code of `isnum`, `isbool` and of the choice of a boolean defines
/// neither.
pub proof fn lemma_branch_code_safe(op: Op2, l: int, on_set: bool)
    requires
        l >= 0,
    ensures
        safe(tag_test_code(l, on_set)),
        safe(select_code(op, l)),
{
    lemma_label_is_no_trap("if"@, l);
    lemma_label_is_no_trap("endif"@, l + 1);
}

/// The code of an ordered comparison behind its operands: the check that
/// both have one type, the check that the second is a number, the
/// comparison, the jump on the condition and the choice of the boolean.
pub open spec fn ordered_tail(op: Op2, l: int, si: int) -> Seq<InstrView> {
    same_type_code(si * 8) + number_check_code() + seq![InstrView::Cmp(slot(si), rax())]
        + select_code(op, l)
}

/// The code of an ordered comparison behind its operands defines neither
/// trampoline.
pub proof fn lemma_ordered_tail_safe(op: Op2, l: int, si: int)
    requires
        l >= 0,
    ensures
        safe(ordered_tail(op, l, si)),
{
    let same = same_type_code(si * 8);
    let check = number_check_code();
    let cmp = seq![InstrView::Cmp(slot(si), rax())];
    let select = select_code(op, l);
    lemma_branch_code_safe(op, l, true);
    lemma_misses_concat(same, check, "invalid_arg"@);
    lemma_misses_concat(same, check, "overflow"@);
    lemma_misses_concat(same + check, cmp, "invalid_arg"@);
    lemma_misses_concat(same + check, cmp, "overflow"@);
    lemma_misses_concat(same + check + cmp, select, "invalid_arg"@);
    lemma_misses_concat(same + check + cmp, select, "overflow"@);
}

/// Behind its operands, the code of an ordered comparison leaves in `rax`
/// the word of the boolean that says whether the comparison holds of the
/// value in slot `si` and the value in `rax`, if both are numbers; it leaves
/// for the invalid-argument trampoline if one of them is none.
pub proof fn lemma_ordered_tail(op: Op2, l: int, m: Machine, si: int, v1: Value, v2: Value)
    requires
        ordered(op),
        l >= 0,
        legal(v1),
        legal(v2),
        m.mem[m.rsp - si * 8] == tagged(v1),
        m.rax == tagged(v2),
    ensures
        match (v1, v2) {
            (Value::Num(n1), Value::Num(n2)) => execute(
                ordered_tail(op, l, si),
                m,
            ) matches Outcome::Done(m1) && m1.rax == (if compares(op, n1, n2) {
                3int
            } else {
                1int
            }) && m1.rdi == m.rdi && m1.rsp == m.rsp && m1.mem == m.mem,
            _ => execute(ordered_tail(op, l, si), m) matches Outcome::Leaves(name, _) && name
                == "invalid_arg"@,
        },
{
    let same = same_type_code(si * 8);
    let check = number_check_code();
    let cmp = seq![InstrView::Cmp(slot(si), rax())];
    let select = select_code(op, l);
    lemma_branch_code_safe(op, l, true);
    lemma_same_type(m, si * 8);
    if (v1 is Num) == (v2 is Num) {
        let m1 = execute(same, m)->Done_0;
        lemma_number_check(m1);
        lemma_next(same, check, m);
        match (v1, v2) {
            (Value::Num(n1), Value::Num(n2)) => {
                let m2 = execute(check, m1)->Done_0;
                lemma_select(op, l, m2, si, n1, n2);
                lemma_then(same + check, cmp, m);
                lemma_then(same + check + cmp, select, m);
            },
            _ => {
                lemma_abort(same + check, cmp, m);
                lemma_abort(same + check + cmp, select, m);
            },
        }
    } else {
        lemma_abort(same, check, m);
        lemma_abort(same + check, cmp, m);
        lemma_abort(same + check + cmp, select, m);
    }
}

/// The code of a conditional around the codes of its three parts.
pub open spec fn branch_code(
    cond: Seq<InstrView>,
    first: Seq<InstrView>,
    second: Seq<InstrView>,
    l: int,
) -> Seq<InstrView> {
    cond + seq![
        InstrView::Cmp(rax(), imm(FALSE_VAL as int)),
        InstrView::JEqual(label(label_name("if"@, l))),
    ] + first + seq![
        InstrView::Jmp(label(label_name("endif"@, l + 1))),
        InstrView::Label(label(label_name("if"@, l))),
    ] + second + seq![InstrView::Label(label(label_name("endif"@, l + 1)))]
}

/// The state behind the comparison of `rax` with the word of false.
pub open spec fn compared_with_false(m: Machine) -> Machine {
    step(m, InstrView::Cmp(rax(), imm(FALSE_VAL as int)))
}

/// The code of a conditional runs the code of the condition, and then the
/// code of the third part if `rax` holds the word of false, and the code of
/// the second part if it holds another word; control that leaves one of the
/// three for a trampoline leaves the conditional for it. This holds where
/// the second part does not define the label of the third, the third part
/// does not define the end label, and neither defines a trampoline.
pub proof fn lemma_branch_run(
    cond: Seq<InstrView>,
    first: Seq<InstrView>,
    second: Seq<InstrView>,
    l: int,
    m: Machine,
)
    requires
        l >= 0,
        safe(first),
        safe(second),
        misses(first, label_name("if"@, l)),
        misses(second, label_name("endif"@, l + 1)),
        traps_only(execute(cond, m)),
        execute(cond, m) matches Outcome::Done(m1) ==> fits(m1.rax),
    ensures
        execute(cond, m) is Leaves ==> execute(branch_code(cond, first, second, l), m) == execute(
            cond,
            m,
        ),
        execute(cond, m) matches Outcome::Done(m1) ==> (m1.rax == 1 && traps_only(
            execute(second, compared_with_false(m1)),
        ) ==> execute(branch_code(cond, first, second, l), m) == execute(
            second,
            compared_with_false(m1),
        )),
        execute(cond, m) matches Outcome::Done(m1) ==> (m1.rax != 1 && traps_only(
            execute(first, compared_with_false(m1)),
        ) ==> execute(branch_code(cond, first, second, l), m) == execute(
            first,
            compared_with_false(m1),
        )),
{
    let other = label_name("if"@, l);
    let end = label_name("endif"@, l + 1);
    let b_code = seq![
        InstrView::Cmp(rax(), imm(FALSE_VAL as int)),
        InstrView::JEqual(label(other)),
    ];
    let d_code = seq![InstrView::Jmp(label(end)), InstrView::Label(label(other))];
    let f_code = seq![InstrView::Label(label(end))];
    let code = branch_code(cond, first, second, l);
    assert(code == cond + b_code + first + d_code + second + f_code);
    lemma_label_is_no_trap("if"@, l);
    lemma_label_is_no_trap("endif"@, l + 1);
    lemma_labels_differ("if"@, l, "endif"@, l + 1);
    assert(safe(b_code));
    assert(safe(d_code));
    assert(safe(f_code));
    lemma_run_resume(cond, b_code, 0, m);
    lemma_run_resume(cond + b_code, first, 0, m);
    lemma_run_resume(cond + b_code + first, d_code, 0, m);
    lemma_run_resume(cond + b_code + first + d_code, second, 0, m);
    lemma_run_resume(cond + b_code + first + d_code + second, f_code, 0, m);
    let o1 = execute(cond, m);
    let o2 = resume(o1, b_code);
    let o3 = resume(o2, first);
    let o4 = resume(o3, d_code);
    let o5 = resume(o4, second);
    let o6 = resume(o5, f_code);
    assert(execute(code, m) == o6);
    if o1 is Leaves {
        lemma_pass(o1, b_code);
        lemma_pass(o1, first);
        lemma_pass(o1, d_code);
        lemma_pass(o1, second);
        lemma_pass(o1, f_code);
    } else {
        let m1 = o1->Done_0;
        let m1c = compared_with_false(m1);
        assert(wrap(1) == 1);
        assert(m1c.zero == (m1.rax == 1));
        lemma_find_absent(b_code, 2, other);
        assert(run(b_code, 2, m1c) == Outcome::Done(m1c));
        assert(run(b_code, 0, m1) == run(b_code, 1, m1c));
        assert(run(d_code, 2, m1c) == Outcome::Done(m1c));
        if m1.rax == 1 {
            assert(o2 == Outcome::Leaves(other, m1c));
            lemma_pass(o2, first);
            lemma_land(o3, d_code, 1);
            assert(o4 == Outcome::Done(m1c));
            if traps_only(execute(second, m1c)) {
                if o5 is Leaves {
                    lemma_pass(o5, f_code);
                } else {
                    let m3 = o5->Done_0;
                    assert(run(f_code, 1, m3) == Outcome::Done(m3));
                    assert(run(f_code, 0, m3) == run(f_code, 1, m3));
                }
            }
        } else {
            assert(o2 == Outcome::Done(m1c));
            if traps_only(execute(first, m1c)) {
                if o3 is Leaves {
                    lemma_pass(o3, d_code);
                    lemma_pass(o3, second);
                    lemma_pass(o3, f_code);
                } else {
                    let m2 = o3->Done_0;
                    lemma_find_absent(d_code, 2, end);
                    assert(find_ahead(d_code, 1, end) == 2);
                    assert(run(d_code, 0, m2) == Outcome::Leaves(end, m2));
                    assert(o4 == Outcome::Leaves(end, m2));
                    assert(run(f_code, 1, m2) == Outcome::Done(m2));
                    lemma_pass(o4, second);
                    lemma_land(o5, f_code, 0);
                }
            }
        }
    }
}

/// The code of `add1` or `sub1` behind its operand: the check that it is
/// a number, the addition or subtraction of the word of 1, and the overflow
/// check.
pub open spec fn step_tail(up: bool) -> Seq<InstrView> {
    number_check_code() + seq![
        if up {
            InstrView::IAdd(rax(), imm(2))
        } else {
            InstrView::ISub(rax(), imm(2))
        },
    ] + seq![InstrView::OverFlow()]
}

/// The code of `add1` or `sub1` behind its operand defines neither
/// trampoline.
pub proof fn lemma_step_tail_safe(up: bool)
    ensures
        safe(step_tail(up)),
{
    let check = number_check_code();
    let arith = seq![
        if up {
            InstrView::IAdd(rax(), imm(2))
        } else {
            InstrView::ISub(rax(), imm(2))
        },
    ];
    let jump = seq![InstrView::OverFlow()];
    lemma_misses_concat(check, arith, "invalid_arg"@);
    lemma_misses_concat(check, arith, "overflow"@);
    lemma_misses_concat(check + arith, jump, "invalid_arg"@);
    lemma_misses_concat(check + arith, jump, "overflow"@);
}

/// Behind its operand, the code of `add1` or `sub1` leaves in `rax` the word
/// of the next number up or down, with the overflow flag clear; it leaves
/// for the overflow trampoline if that is no number of the language, and
/// for the invalid-argument trampoline if the operand is no number.
#[verifier::rlimit(60)]
pub proof fn lemma_step_tail(up: bool, m: Machine, v: Value)
    requires
        legal(v),
        m.rax == tagged(v),
    ensures
        match v {
            Value::Num(n) => {
                let next = if up {
                    n + 1
                } else {
                    n - 1
                };
                if in_range(next) {
                    execute(step_tail(up), m) matches Outcome::Done(m1) && m1.rax == 2 * next
                        && m1.rdi == m.rdi && m1.rsp == m.rsp && m1.mem == m.mem && !m1.over
                } else {
                    execute(step_tail(up), m) matches Outcome::Leaves(name, _) && name
                        == "overflow"@
                }
            },
            _ => execute(step_tail(up), m) matches Outcome::Leaves(name, _) && name
                == "invalid_arg"@,
        },
{
    let check = number_check_code();
    let arith = seq![
        if up {
            InstrView::IAdd(rax(), imm(2))
        } else {
            InstrView::ISub(rax(), imm(2))
        },
    ];
    let jump = seq![InstrView::OverFlow()];
    lemma_number_check(m);
    match v {
        Value::Num(n) => {
            let m1 = execute(check, m)->Done_0;
            assert(wrap(2) == 2);
            reveal_with_fuel(run, 2);
            lemma_next(check, arith, m);
            let m2 = execute(arith, m1)->Done_0;
            lemma_find_absent(jump, 1, "overflow"@);
            lemma_then(check + arith, jump, m);
            if up {
                assert(m2.over == !in_range(n + 1));
            } else {
                assert(m2.over == !in_range(n - 1));
            }
        },
        _ => {
            lemma_abort(check, arith, m);
            lemma_abort(check + arith, jump, m);
        },
    }
}

/// The code of `print` behind its operand hands the word in `rax` to the
/// runtime, with the stack pointer a multiple of 16 at the call, and takes
/// it back in `rax`; `rdi`, the stack pointer and every word below slot `si`
/// are afterwards what they were, the overflow flag is clear, and the word
/// is the last that was printed.
#[verifier::rlimit(60)]
pub proof fn lemma_print(m: Machine, si: int)
    requires
        0 <= si <= STACK_INDEX_LIMIT,
        at_entry(m.rsp),
    ensures
        execute(print_code(si), m) matches Outcome::Done(m1) && m1.rax == m.rax && m1.rdi == m.rdi
            && m1.rsp == m.rsp && !m1.over && m1.out == m.out.push(m.rax) && (forall|off: int|
            off < si * 8 ==> #[trigger] m1.mem[m.rsp - off] == m.mem[m.rsp - off]),
        safe(print_code(si)),
{
    let code = print_code(si);
    let index = if si % 2 == 1 {
        si + 1
    } else {
        si
    };
    assert(index % 2 == 0);
    assert((index * 8) % 16 == 0);
    assert(wrap(index * 8) == index * 8);
    let m1 = step(m, code[0]);
    assert(m1.rsp == m.rsp - index * 8 && m1.mem == m.mem && m1.rax == m.rax && m1.rdi == m.rdi
        && m1.out == m.out);
    let m2 = step(m1, code[1]);
    assert(m2.rsp == m1.rsp - 8 && m2.mem == m1.mem.insert(m2.rsp, m.rdi) && m2.rax == m.rax
        && m2.out == m.out);
    assert(m2.rsp % 16 == 0);
    let m3 = step(m2, code[2]);
    assert(m3.rsp == m2.rsp && m3.mem == m2.mem && m3.rdi == m.rax && m3.out == m.out);
    assert(prints(code[3], m3));
    let m4 = after_print(m3);
    assert(m4.rax == m.rax && m4.rsp == m2.rsp && m4.out == m.out.push(m.rax));
    assert(m4.mem[m4.rsp] == m.rdi);
    let m5 = step(m4, code[4]);
    assert(m5.rdi == m.rdi && m5.rsp == m1.rsp && m5.mem == m4.mem && m5.rax == m.rax && m5.out
        == m4.out);
    let m6 = step(m5, code[5]);
    assert(m6.rsp == m.rsp && !m6.over && m6.mem == m4.mem && m6.rax == m.rax && m6.rdi == m.rdi
        && m6.out == m4.out);
    assert(run(code, 6, m6) == Outcome::Done(m6));
    assert(run(code, 5, m5) == run(code, 6, m6));
    assert(run(code, 4, m4) == run(code, 5, m5));
    assert(run(code, 3, m3) == run(code, 4, m4));
    assert(run(code, 2, m2) == run(code, 3, m3));
    assert(run(code, 1, m1) == run(code, 2, m2));
    assert(run(code, 0, m) == run(code, 1, m1));
    assert forall|off: int| off < si * 8 implies #[trigger] m6.mem[m.rsp - off] == m.mem[m.rsp
        - off] by {
        assert(m.rsp - off > m2.rsp);
    }
}

/// The code between and behind the operands of `=`, `+`, `-` and `*`
/// defines neither trampoline.
pub proof fn lemma_operator_parts_safe(op: Op2, si: int)
    ensures
        safe(equal_tail(si)),
        safe(guard_code(si)),
        safe(arith_finish(op, si)),
{
    let check = number_check_code();
    let save = seq![InstrView::IMov(slot(si), rax())];
    let arith = seq![arith_instr(op, si)];
    let tail = arith_tail(op, si);
    lemma_misses_concat(same_type_code(si * 8), choose_equal_code(si), "invalid_arg"@);
    lemma_misses_concat(same_type_code(si * 8), choose_equal_code(si), "overflow"@);
    lemma_misses_concat(check, save, "invalid_arg"@);
    lemma_misses_concat(check, save, "overflow"@);
    lemma_misses_concat(check, arith, "invalid_arg"@);
    lemma_misses_concat(check, arith, "overflow"@);
    lemma_misses_concat(check + arith, tail, "invalid_arg"@);
    lemma_misses_concat(check + arith, tail, "overflow"@);
}

/// Behind its operands, the code of `=` leaves in `rax` the word of the
/// boolean that says whether the value in slot `si` and the value in `rax`
/// are the same, if they have one type; it leaves for the invalid-argument
/// trampoline if they have two.
pub proof fn lemma_equal_tail(m: Machine, si: int, v1: Value, v2: Value)
    requires
        legal(v1),
        legal(v2),
        m.mem[m.rsp - si * 8] == tagged(v1),
        m.rax == tagged(v2),
    ensures
        (v1 is Num) == (v2 is Num) ==> (execute(equal_tail(si), m) matches Outcome::Done(m1)
            && m1.rax == tagged(Value::Bool(v1 == v2)) && m1.rdi == m.rdi && m1.rsp == m.rsp
            && m1.mem == m.mem),
        (v1 is Num) != (v2 is Num) ==> (execute(equal_tail(si), m) matches Outcome::Leaves(name, _)
            && name == "invalid_arg"@),
{
    let check = same_type_code(si * 8);
    let tail = choose_equal_code(si);
    lemma_same_type(m, si * 8);
    if (v1 is Num) == (v2 is Num) {
        let m1 = execute(check, m)->Done_0;
        lemma_choose_equal(m1, si);
        lemma_next(check, tail, m);
        assert((tagged(v2) == tagged(v1)) == (v1 == v2));
    } else {
        lemma_abort(check, tail, m);
    }
}

/// Between the operands of `+`, `-` or `*`, the word of a number in `rax`
/// is saved in slot `si`, with the overflow flag clear; a boolean leaves for
/// the invalid-argument trampoline.
#[verifier::rlimit(60)]
pub proof fn lemma_guard(m: Machine, si: int, v: Value)
    requires
        legal(v),
        m.rax == tagged(v),
    ensures
        v is Num ==> (execute(guard_code(si), m) matches Outcome::Done(m1) && m1.rax == m.rax
            && m1.rdi == m.rdi && m1.rsp == m.rsp && !m1.over && m1.mem == m.mem.insert(
            m.rsp - si * 8,
            m.rax,
        )),
        v is Bool ==> (execute(guard_code(si), m) matches Outcome::Leaves(name, _) && name
            == "invalid_arg"@),
{
    let check = number_check_code();
    let save = seq![InstrView::IMov(slot(si), rax())];
    lemma_number_check(m);
    if v is Num {
        let m1 = execute(check, m)->Done_0;
        lemma_next(check, save, m);
        assert(run(save, 1, step(m1, save[0])) == Outcome::Done(step(m1, save[0])));
        assert(run(save, 0, m1) == run(save, 1, step(m1, save[0])));
    } else {
        lemma_abort(check, save, m);
    }
}

/// Behind its operands, the code of `+`, `-` or `*` leaves in `rax` the
/// word of the result on the number in slot `si` and the number in `rax`,
/// with the overflow flag clear; it leaves for the overflow trampoline if
/// the result is no number of the language, and for the invalid-argument
/// trampoline if `rax` holds a boolean.
pub proof fn lemma_arith_finish(op: Op2, m: Machine, si: int, n1: int, v2: Value)
    requires
        op == Op2::Plus || op == Op2::Minus || op == Op2::Times,
        in_range(n1),
        legal(v2),
        m.rax == tagged(v2),
        m.mem[m.rsp - si * 8] == 2 * n1,
    ensures
        match v2 {
            Value::Num(n2) => {
                if in_range(arith_result(op, n1, n2)) {
                    execute(arith_finish(op, si), m) matches Outcome::Done(m1) && m1.rax == 2
                        * arith_result(op, n1, n2) && m1.rdi == m.rdi && m1.rsp == m.rsp
                        && m1.mem == m.mem && !m1.over
                } else {
                    execute(arith_finish(op, si), m) matches Outcome::Leaves(name, _) && name
                        == "overflow"@
                }
            },
            _ => execute(arith_finish(op, si), m) matches Outcome::Leaves(name, _) && name
                == "invalid_arg"@,
        },
{
    let check = number_check_code();
    let arith = seq![arith_instr(op, si)];
    let tail = arith_tail(op, si);
    lemma_operator_parts_safe(op, si);
    lemma_number_check(m);
    match v2 {
        Value::Num(n2) => {
            let m1 = execute(check, m)->Done_0;
            lemma_arith_glue(op, m1, si, n1, n2);
            lemma_next(check, arith, m);
            lemma_then(check + arith, tail, m);
        },
        _ => {
            lemma_abort(check, arith, m);
            lemma_abort(check + arith, tail, m);
        },
    }
}

} // verus!
