//! The assembly text of operands, instructions and whole programs.

use vstd::prelude::*;
use vstd::string::*;
use crate::text::{int_text, nat_text, push_nat};
use crate::types::{
    Instr, InstrView, Reg, Val, ValView, INVALID_ARGUMENT_ERROR_CODE, OVERFLOW_ERROR_CODE,
};
use crate::types::code_of;

verus! {

/// The name of a register.
pub open spec fn reg_text(r: Reg) -> Seq<char> {
    match r {
        Reg::RAX => "rax"@,
        Reg::RBX => "rbx"@,
        Reg::RSP => "rsp"@,
        Reg::RDI => "rdi"@,
    }
}

/// The text of an operand: a register by its name, an immediate in decimal,
/// a label by its name, and a stack word as the register in brackets with
/// the offset behind it, `-n` for a word `n >= 0` bytes below and `+n` for a
/// word `n` bytes above.
pub open spec fn val_text(v: ValView) -> Seq<char> {
    match v {
        ValView::Reg(r) => reg_text(r),
        ValView::Imm(n) => int_text(n),
        ValView::RegOffset(r, n) => {
            if n < 0 {
                "["@ + reg_text(r) + "+"@ + nat_text((-n) as nat) + "]"@
            } else {
                "["@ + reg_text(r) + "-"@ + nat_text(n as nat) + "]"@
            }
        },
        ValView::Label(name) => name,
    }
}

/// The text of an instruction with one operand.
pub open spec fn one_operand(mnemonic: Seq<char>, a: ValView) -> Seq<char> {
    mnemonic + val_text(a)
}

/// The text of an instruction with two operands.
pub open spec fn two_operands(mnemonic: Seq<char>, a: ValView, sep: Seq<char>, b: ValView) -> Seq<
    char,
> {
    mnemonic + val_text(a) + sep + val_text(b)
}

/// The text of an instruction: a line break, the mnemonic and the operands.
/// A label definition is the label's name with a colon.
pub open spec fn instr_text(i: InstrView) -> Seq<char> {
    match i {
        InstrView::IMov(a, b) => two_operands("\nmov "@, a, ", "@, b),
        InstrView::IAdd(a, b) => two_operands("\nadd "@, a, ", "@, b),
        InstrView::ISub(a, b) => two_operands("\nsub "@, a, ", "@, b),
        InstrView::IMul(a, b) => two_operands("\nimul "@, a, ", "@, b),
        InstrView::Shr(a, b) => two_operands("\nsar "@, a, ","@, b),
        InstrView::Shl(a, b) => two_operands("\nshl "@, a, ","@, b),
        InstrView::Cmp(a, b) => two_operands("\ncmp "@, a, ","@, b),
        InstrView::JEqual(a) => one_operand("\nje "@, a),
        InstrView::Jmp(a) => one_operand("\njmp "@, a),
        InstrView::JNotEqual(a) => one_operand("\njne "@, a),
        InstrView::JGreater(a) => one_operand("\njg "@, a),
        InstrView::JGreaterEqual(a) => one_operand("\njge "@, a),
        InstrView::JLess(a) => one_operand("\njl "@, a),
        InstrView::JLessEqual(a) => one_operand("\njle "@, a),
        InstrView::Test(a, b) => two_operands("\ntest "@, a, ","@, b),
        InstrView::Label(a) => "\n"@ + val_text(a) + ":"@,
        InstrView::Xor(a, b) => two_operands("\nxor "@, a, ","@, b),
        InstrView::Cmove(a, b) => two_operands("\ncmove "@, a, ","@, b),
        InstrView::OverFlow() => "\njo overflow"@,
        InstrView::Call(a) => one_operand("\ncall "@, a),
        InstrView::Push(a) => one_operand("\npush "@, a),
        InstrView::Pop(a) => one_operand("\npop "@, a),
        InstrView::Ret() => "\nret"@,
    }
}

/// The text of the first `n` instructions of a list, one after the other.
pub open spec fn code_text(code: Seq<InstrView>, n: int) -> Seq<char>
    decreases n,
{
    if n <= 0 || n > code.len() {
        Seq::empty()
    } else {
        code_text(code, n - 1) + instr_text(code[n - 1])
    }
}

/// The text of an instruction list.
pub open spec fn listing(code: Seq<InstrView>) -> Seq<char> {
    code_text(code, code.len() as int)
}

/// The name of a register.
pub fn reg_to_str(r: Reg) -> (s: &'static str)
    ensures
        s@ == reg_text(r),
{
    match r {
        Reg::RAX => "rax",
        Reg::RBX => "rbx",
        Reg::RSP => "rsp",
        Reg::RDI => "rdi",
    }
}

/// The assembly text of an operand.
pub fn val_to_str(v: &Val) -> (s: String)
    ensures
        s@ == val_text(v@),
{
    match v {
        Val::Reg(r) => reg_to_str(*r).to_owned(),
        Val::Imm(n) => {
            let mut s = String::new();
            push_nat(&mut s, *n);
            assert(s@ =~= nat_text(*n as nat));
            s
        },
        Val::RegOffset(r, n) => {
            let mut s = "[".to_owned();
            s.append(reg_to_str(*r));
            if *n < 0 {
                s.append("+");
                let m: u64 = if *n == i64::MIN {
                    9223372036854775808u64
                } else {
                    (-*n) as u64
                };
                push_nat(&mut s, m);
            } else {
                s.append("-");
                push_nat(&mut s, *n as u64);
            }
            s.append("]");
            s
        },
        Val::Label(name) => name.clone(),
    }
}

/// The text of an instruction with one operand.
fn one_to_str(mnemonic: &str, a: &Val) -> (s: String)
    ensures
        s@ == one_operand(mnemonic@, a@),
{
    let mut s = mnemonic.to_owned();
    let a_text = val_to_str(a);
    s.append(a_text.as_str());
    s
}

/// The text of an instruction with two operands.
fn two_to_str(mnemonic: &str, a: &Val, sep: &str, b: &Val) -> (s: String)
    ensures
        s@ == two_operands(mnemonic@, a@, sep@, b@),
{
    let mut s = mnemonic.to_owned();
    let a_text = val_to_str(a);
    s.append(a_text.as_str());
    s.append(sep);
    let b_text = val_to_str(b);
    s.append(b_text.as_str());
    s
}

/// The assembly text of an instruction.
pub fn instr_to_str(i: &Instr) -> (s: String)
    ensures
        s@ == instr_text(i@),
{
    match i {
        Instr::IMov(val_a, val_b) => two_to_str("\nmov ", val_a, ", ", val_b),
        Instr::IAdd(val_a, val_b) => two_to_str("\nadd ", val_a, ", ", val_b),
        Instr::ISub(val_a, val_b) => two_to_str("\nsub ", val_a, ", ", val_b),
        Instr::IMul(val_a, val_b) => two_to_str("\nimul ", val_a, ", ", val_b),
        Instr::Shr(val_a, val_b) => two_to_str("\nsar ", val_a, ",", val_b),
        Instr::Shl(val_a, val_b) => two_to_str("\nshl ", val_a, ",", val_b),
        Instr::Cmp(val_a, val_b) => two_to_str("\ncmp ", val_a, ",", val_b),
        Instr::JEqual(val_a) => one_to_str("\nje ", val_a),
        Instr::Jmp(val_a) => one_to_str("\njmp ", val_a),
        Instr::JNotEqual(val_a) => one_to_str("\njne ", val_a),
        Instr::JGreater(val_a) => one_to_str("\njg ", val_a),
        Instr::JGreaterEqual(val_a) => one_to_str("\njge ", val_a),
        Instr::JLess(val_a) => one_to_str("\njl ", val_a),
        Instr::JLessEqual(val_a) => one_to_str("\njle ", val_a),
        Instr::Test(val_a, val_b) => two_to_str("\ntest ", val_a, ",", val_b),
        Instr::Label(val_a) => {
            let mut s = one_to_str("\n", val_a);
            s.append(":");
            s
        },
        Instr::Xor(val_a, val_b) => two_to_str("\nxor ", val_a, ",", val_b),
        Instr::Cmove(val_a, val_b) => two_to_str("\ncmove ", val_a, ",", val_b),
        Instr::OverFlow() => "\njo overflow".to_owned(),
        Instr::Call(val_a) => one_to_str("\ncall ", val_a),
        Instr::Push(val_a) => one_to_str("\npush ", val_a),
        Instr::Pop(val_a) => one_to_str("\npop ", val_a),
        Instr::Ret() => "\nret".to_owned(),
    }
}

/// The assembly text of a list of instructions: the text of each, in order.
pub fn instrs_to_str(instrs: &Vec<Instr>) -> (s: String)
    ensures
        s@ == listing(code_of(instrs@)),
{
    let mut s = String::new();
    let mut i: usize = 0;
    while i < instrs.len()
        invariant
            i <= instrs.len(),
            s@ == code_text(code_of(instrs@), i as int),
        decreases instrs.len() - i,
    {
        let line = instr_to_str(&instrs[i]);
        s.append(line.as_str());
        i = i + 1;
    }
    s
}

/// The text that stands before the function definitions of every program:
/// the section header, the runtime's two entry points, the program's own, and
/// the landing pad that hands an error code to the runtime.
pub open spec fn prologue_text() -> Seq<char> {
    "\nsection .text\nextern snek_error\nextern snek_print\nglobal our_code_starts_here\nthrow_error:\n    push rsp\n    call snek_error\n"@
}

/// The whole assembly text of a program, from the text of its function
/// definitions and the text of its main expression: the prologue, the
/// definitions, the entry label with the main expression and a return, and
/// the two trampolines, which load the overflow code and the
/// invalid-argument code and jump to the landing pad.
pub open spec fn program_text(defs: Seq<char>, main: Seq<char>) -> Seq<char> {
    prologue_text() + defs + "\nour_code_starts_here:\n    "@ + main
        + "\n    ret\noverflow:\n    mov rdi, "@ + nat_text(OVERFLOW_ERROR_CODE as nat)
        + "\n    jmp throw_error\ninvalid_arg:\n    mov rdi, "@ + nat_text(
        INVALID_ARGUMENT_ERROR_CODE as nat,
    ) + "\n    jmp throw_error\n"@
}

/// The whole assembly text of a program, from the text of its function
/// definitions and the text of its main expression.
pub fn assemble(func_defs: &str, main: &str) -> (s: String)
    ensures
        s@ == program_text(func_defs@, main@),
{
    let mut s =
        "\nsection .text\nextern snek_error\nextern snek_print\nglobal our_code_starts_here\nthrow_error:\n    push rsp\n    call snek_error\n".to_owned();
    s.append(func_defs);
    s.append("\nour_code_starts_here:\n    ");
    s.append(main);
    s.append("\n    ret\noverflow:\n    mov rdi, ");
    push_nat(&mut s, OVERFLOW_ERROR_CODE);
    s.append("\n    jmp throw_error\ninvalid_arg:\n    mov rdi, ");
    push_nat(&mut s, INVALID_ARGUMENT_ERROR_CODE);
    s.append("\n    jmp throw_error\n");
    s
}

} // verus!
