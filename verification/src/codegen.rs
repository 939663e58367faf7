//! The instruction sequences that the compiler is built from: the inline type
//! checks, the ways of turning a comparison into a boolean, and the fresh
//! labels they jump to. Each emitter appends to a vector of instructions; its
//! contract names the sequence that it appends.

use vstd::prelude::*;
use vstd::string::*;
use crate::text::{int_text, push_int};
use crate::types::{code_of, Instr, InstrView, Reg, Val, ValView, FALSE_VAL, TRUE_VAL};

verus! {

/// The operand that is the register `rax`.
pub open spec fn rax() -> ValView {
    ValView::Reg(Reg::RAX)
}

/// The operand that is the register `rbx`.
pub open spec fn rbx() -> ValView {
    ValView::Reg(Reg::RBX)
}

/// The operand that is the register `rdi`.
pub open spec fn rdi() -> ValView {
    ValView::Reg(Reg::RDI)
}

/// The operand that is the register `rsp`.
pub open spec fn rsp() -> ValView {
    ValView::Reg(Reg::RSP)
}

/// The stack word `offset` bytes below the stack pointer.
pub open spec fn stack(offset: int) -> ValView {
    ValView::RegOffset(Reg::RSP, offset)
}

/// The stack slot with index `si`: the word `si * 8` bytes below the stack
/// pointer.
pub open spec fn slot(si: int) -> ValView {
    stack(si * 8)
}

/// An immediate operand.
pub open spec fn imm(n: int) -> ValView {
    ValView::Imm(n)
}

/// A label operand.
pub open spec fn label(name: Seq<char>) -> ValView {
    ValView::Label(name)
}

/// The label that the counter value `n` gives under `prefix`: the prefix, an
/// underscore, and `n` in decimal.
pub open spec fn label_name(prefix: Seq<char>, n: int) -> Seq<char> {
    prefix + "_"@ + int_text(n)
}

/// The label of the trampoline that reports a wrong type tag.
pub open spec fn invalid_arg() -> ValView {
    label("invalid_arg"@)
}

/// The check that `rax` holds a number: its lowest bit is tested, and a set
/// bit leads to the invalid-argument trampoline.
pub open spec fn number_check_code() -> Seq<InstrView> {
    seq![InstrView::Test(rax(), imm(1)), InstrView::JNotEqual(invalid_arg())]
}

/// The check that `rax` and the stack word at `offset` carry the same type
/// tag: the lowest bit of their exclusive or is tested, and a set bit leads to
/// the invalid-argument trampoline.
pub open spec fn same_type_code(offset: int) -> Seq<InstrView> {
    seq![
        InstrView::IMov(rbx(), rax()),
        InstrView::Xor(rbx(), stack(offset)),
        InstrView::Test(rbx(), imm(1)),
        InstrView::JNotEqual(invalid_arg()),
    ]
}

/// The tail of a comparison: control that falls through sets `rax` to false
/// and jumps to `end_label`; control that arrives at `cond_label` sets `rax`
/// to true.
pub open spec fn choose_bool_code(end_label: Seq<char>, cond_label: Seq<char>) -> Seq<InstrView> {
    seq![
        InstrView::IMov(rax(), imm(FALSE_VAL as int)),
        InstrView::Jmp(label(end_label)),
        InstrView::Label(label(cond_label)),
        InstrView::IMov(rax(), imm(TRUE_VAL as int)),
        InstrView::Label(label(end_label)),
    ]
}

/// The code that compares two numbers: `first` is computed and saved in slot
/// `si`, `second` is computed into `rax`, both are checked to be numbers, and
/// the saved word is compared with `rax`.
pub open spec fn compare_code(first: Seq<InstrView>, second: Seq<InstrView>, si: int) -> Seq<
    InstrView,
> {
    first + seq![InstrView::IMov(slot(si), rax())] + second + same_type_code(si * 8)
        + number_check_code() + seq![InstrView::Cmp(slot(si), rax())]
}

/// The code of an arithmetic operator on two operands: `first` is computed,
/// checked to be a number and saved in slot `si`; `second` is computed into
/// `rax` and checked; then comes the instruction `op`.
pub open spec fn binop_code(
    first: Seq<InstrView>,
    second: Seq<InstrView>,
    op: InstrView,
    si: int,
) -> Seq<InstrView> {
    first + number_check_code() + seq![InstrView::IMov(slot(si), rax())] + second
        + number_check_code() + seq![op]
}

/// The code of an arithmetic operator on one operand: the operand is
/// computed into `rax` and checked to be a number; then comes the
/// instruction `op`.
pub open spec fn unop_code(operand: Seq<InstrView>, op: InstrView) -> Seq<InstrView> {
    operand + number_check_code() + seq![op]
}

/// The code that replaces `rax` by the boolean `on_set` if its lowest bit is
/// set and by the other boolean if it is clear, with the two labels that
/// the counter value `l` gives.
pub open spec fn tag_test_code(l: int, on_set: bool) -> Seq<InstrView> {
    let cond_label = label_name("if"@, l);
    let end_label = label_name("endif"@, l + 1);
    seq![
        InstrView::Test(rax(), imm(1)),
        InstrView::JNotEqual(label(cond_label)),
        InstrView::IMov(rax(), imm(if on_set { FALSE_VAL as int } else { TRUE_VAL as int })),
        InstrView::Jmp(label(end_label)),
        InstrView::Label(label(cond_label)),
        InstrView::IMov(rax(), imm(if on_set { TRUE_VAL as int } else { FALSE_VAL as int })),
        InstrView::Label(label(end_label)),
    ]
}

/// The code of `isbool`: true if the lowest bit of `rax` is set.
pub open spec fn is_bool_code(l: int) -> Seq<InstrView> {
    tag_test_code(l, true)
}

/// The code of `isnum`: true if the lowest bit of `rax` is clear.
pub open spec fn is_num_code(l: int) -> Seq<InstrView> {
    tag_test_code(l, false)
}

/// Appending one instruction appends its view.
pub proof fn lemma_code_push(instrs: Seq<Instr>, i: Instr)
    ensures
        code_of(instrs.push(i)) == code_of(instrs).push(i@),
{
    assert(code_of(instrs.push(i)) =~= code_of(instrs).push(i@));
}

/// The view of a concatenation is the concatenation of the views.
pub proof fn lemma_code_concat(a: Seq<Instr>, b: Seq<Instr>)
    ensures
        code_of(a + b) == code_of(a) + code_of(b),
{
    assert(code_of(a + b) =~= code_of(a) + code_of(b));
}

/// Appends one instruction.
pub fn emit(instrs: &mut Vec<Instr>, i: Instr)
    ensures
        code_of(final(instrs)@) == code_of(old(instrs)@).push(i@),
{
    proof {
        lemma_code_push(instrs@, i);
    }
    instrs.push(i);
}

/// Appends the instructions of `more`, in order.
pub fn emit_all(instrs: &mut Vec<Instr>, more: Vec<Instr>)
    ensures
        code_of(final(instrs)@) == code_of(old(instrs)@) + code_of(more@),
{
    let mut more = more;
    proof {
        lemma_code_concat(instrs@, more@);
    }
    instrs.append(&mut more);
}

/// The operand `rax`.
pub fn reg_rax() -> (v: Val)
    ensures
        v@ == rax(),
{
    Val::Reg(Reg::RAX)
}

/// The operand `rbx`.
pub fn reg_rbx() -> (v: Val)
    ensures
        v@ == rbx(),
{
    Val::Reg(Reg::RBX)
}

/// The operand `rdi`.
pub fn reg_rdi() -> (v: Val)
    ensures
        v@ == rdi(),
{
    Val::Reg(Reg::RDI)
}

/// The operand `rsp`.
pub fn reg_rsp() -> (v: Val)
    ensures
        v@ == rsp(),
{
    Val::Reg(Reg::RSP)
}

/// The label operand with the name `name`.
pub fn label_val(name: &str) -> (v: Val)
    ensures
        v@ == label(name@),
{
    Val::Label(name.to_owned())
}

/// Appends the check that `rax` holds a number.
pub fn type_number_check(vec: &mut Vec<Instr>)
    ensures
        code_of(final(vec)@) == code_of(old(vec)@) + number_check_code(),
{
    emit(vec, Instr::Test(reg_rax(), Val::Imm(1)));
    emit(vec, Instr::JNotEqual(label_val("invalid_arg")));
    assert(code_of(vec@) =~= code_of(old(vec)@) + number_check_code());
}

/// Appends the check that `rax` and the stack word at `offset` carry the same
/// type tag.
pub fn same_type_expr(instr: &mut Vec<Instr>, offset: i64)
    ensures
        code_of(final(instr)@) == code_of(old(instr)@) + same_type_code(offset as int),
{
    emit(instr, Instr::IMov(reg_rbx(), reg_rax()));
    emit(instr, Instr::Xor(reg_rbx(), Val::RegOffset(Reg::RSP, offset)));
    emit(instr, Instr::Test(reg_rbx(), Val::Imm(1)));
    emit(instr, Instr::JNotEqual(label_val("invalid_arg")));
    assert(code_of(instr@) =~= code_of(old(instr)@) + same_type_code(offset as int));
}

/// Appends the tail of a comparison: false on falling through, true at
/// `cond_label`, and `end_label` behind both.
pub fn conditional_jmp_compare(instr: &mut Vec<Instr>, end_label: String, cond_label: String)
    ensures
        code_of(final(instr)@) == code_of(old(instr)@) + choose_bool_code(
            end_label@,
            cond_label@,
        ),
{
    emit(instr, Instr::IMov(reg_rax(), Val::Imm(FALSE_VAL)));
    emit(instr, Instr::Jmp(Val::Label(end_label.clone())));
    emit(instr, Instr::Label(Val::Label(cond_label)));
    emit(instr, Instr::IMov(reg_rax(), Val::Imm(TRUE_VAL)));
    emit(instr, Instr::Label(Val::Label(end_label)));
    assert(code_of(instr@) =~= code_of(old(instr)@) + choose_bool_code(end_label@, cond_label@));
}

/// Appends the comparison of the number that `e1` computes with the number
/// that `e2` computes, the first one saved in slot `si`.
pub fn compare_size(vec: &mut Vec<Instr>, e1: Vec<Instr>, e2: Vec<Instr>, si: i64)
    requires
        i64::MIN <= si * 8 <= i64::MAX,
    ensures
        code_of(final(vec)@) == code_of(old(vec)@) + compare_code(
            code_of(e1@),
            code_of(e2@),
            si as int,
        ),
{
    emit_all(vec, e1);
    emit(vec, Instr::IMov(Val::RegOffset(Reg::RSP, si * 8), reg_rax()));
    emit_all(vec, e2);
    same_type_expr(vec, si * 8);
    type_number_check(vec);
    emit(vec, Instr::Cmp(Val::RegOffset(Reg::RSP, si * 8), reg_rax()));
    assert(code_of(vec@) =~= code_of(old(vec)@) + compare_code(
        code_of(e1@),
        code_of(e2@),
        si as int,
    ));
}

/// Appends the code of an arithmetic operator on two operands: `append1`,
/// checked and saved in slot `si`; `append2`, checked; then `append3`.
pub fn update_vec_binop(
    vec: &mut Vec<Instr>,
    append1: Vec<Instr>,
    append2: Vec<Instr>,
    append3: Instr,
    si: i64,
)
    requires
        i64::MIN <= si * 8 <= i64::MAX,
    ensures
        code_of(final(vec)@) == code_of(old(vec)@) + binop_code(
            code_of(append1@),
            code_of(append2@),
            append3@,
            si as int,
        ),
{
    emit_all(vec, append1);
    let stack_offset = si * 8;
    type_number_check(vec);
    emit(vec, Instr::IMov(Val::RegOffset(Reg::RSP, stack_offset), reg_rax()));
    emit_all(vec, append2);
    type_number_check(vec);
    emit(vec, append3);
    assert(code_of(vec@) =~= code_of(old(vec)@) + binop_code(
        code_of(append1@),
        code_of(append2@),
        append3@,
        si as int,
    ));
}

/// Appends the code of an arithmetic operator on one operand: `append1`,
/// checked; then `append2`.
pub fn update_vec_unop(vec: &mut Vec<Instr>, append1: Vec<Instr>, append2: Instr)
    ensures
        code_of(final(vec)@) == code_of(old(vec)@) + unop_code(code_of(append1@), append2@),
{
    emit_all(vec, append1);
    type_number_check(vec);
    emit(vec, append2);
    assert(code_of(vec@) =~= code_of(old(vec)@) + unop_code(code_of(append1@), append2@));
}

/// Takes the next value of the label counter and returns the label that it
/// gives under the prefix `s`. The counter goes up by one.
pub fn new_label(l: &mut i32, s: &str) -> (name: String)
    requires
        *old(l) < i32::MAX,
    ensures
        *final(l) == *old(l) + 1,
        name@ == label_name(s@, *old(l) as int),
{
    let current = *l;
    *l = *l + 1;
    let mut name = s.to_owned();
    name.append("_");
    push_int(&mut name, current as i64);
    name
}

/// Appends the code of `isbool`, with two fresh labels.
pub fn check_bool_type_instr(instr: &mut Vec<Instr>, l: &mut i32)
    requires
        *old(l) + 2 <= i32::MAX,
    ensures
        *final(l) == *old(l) + 2,
        code_of(final(instr)@) == code_of(old(instr)@) + is_bool_code(*old(l) as int),
{
    let cond_label = new_label(l, "if");
    let end_label = new_label(l, "endif");
    emit(instr, Instr::Test(reg_rax(), Val::Imm(1)));
    emit(instr, Instr::JNotEqual(Val::Label(cond_label.clone())));
    emit(instr, Instr::IMov(reg_rax(), Val::Imm(FALSE_VAL)));
    emit(instr, Instr::Jmp(Val::Label(end_label.clone())));
    emit(instr, Instr::Label(Val::Label(cond_label)));
    emit(instr, Instr::IMov(reg_rax(), Val::Imm(TRUE_VAL)));
    emit(instr, Instr::Label(Val::Label(end_label)));
    assert(code_of(instr@) =~= code_of(old(instr)@) + is_bool_code(*old(l) as int));
}

/// Appends the code of `isnum`, with two fresh labels.
pub fn check_num_type_instr(instr: &mut Vec<Instr>, l: &mut i32)
    requires
        *old(l) + 2 <= i32::MAX,
    ensures
        *final(l) == *old(l) + 2,
        code_of(final(instr)@) == code_of(old(instr)@) + is_num_code(*old(l) as int),
{
    let cond_label = new_label(l, "if");
    let end_label = new_label(l, "endif");
    emit(instr, Instr::Test(reg_rax(), Val::Imm(1)));
    emit(instr, Instr::JNotEqual(Val::Label(cond_label.clone())));
    emit(instr, Instr::IMov(reg_rax(), Val::Imm(TRUE_VAL)));
    emit(instr, Instr::Jmp(Val::Label(end_label.clone())));
    emit(instr, Instr::Label(Val::Label(cond_label)));
    emit(instr, Instr::IMov(reg_rax(), Val::Imm(FALSE_VAL)));
    emit(instr, Instr::Label(Val::Label(end_label)));
    assert(code_of(instr@) =~= code_of(old(instr)@) + is_num_code(*old(l) as int));
}

} // verus!
