//! The text of operands, instructions, labels, messages and programs.

use snek_compiler::codegen::{
    check_bool_type_instr, check_num_type_instr, compare_size, conditional_jmp_compare,
    new_label, same_type_expr, type_number_check, update_vec_binop, update_vec_unop,
};
use snek_compiler::error::CompileError;
use snek_compiler::printer::{assemble, instr_to_str, instrs_to_str, val_to_str};
use snek_compiler::text::{push_int, push_nat};
use snek_compiler::types::{Instr, Reg, Val};

fn rax() -> Val {
    Val::Reg(Reg::RAX)
}

fn rbx() -> Val {
    Val::Reg(Reg::RBX)
}

fn label(name: &str) -> Val {
    Val::Label(name.to_string())
}

fn slot(offset: i64) -> Val {
    Val::RegOffset(Reg::RSP, offset)
}

#[test]
fn registers_print_by_name() {
    assert_eq!(val_to_str(&Val::Reg(Reg::RAX)), "rax");
    assert_eq!(val_to_str(&Val::Reg(Reg::RBX)), "rbx");
    assert_eq!(val_to_str(&Val::Reg(Reg::RSP)), "rsp");
    assert_eq!(val_to_str(&Val::Reg(Reg::RDI)), "rdi");
}

#[test]
fn immediates_print_in_decimal() {
    assert_eq!(val_to_str(&Val::Imm(0)), "0");
    assert_eq!(val_to_str(&Val::Imm(7)), "7");
    assert_eq!(val_to_str(&Val::Imm(10)), "10");
    assert_eq!(val_to_str(&Val::Imm(1234567890)), "1234567890");
    assert_eq!(val_to_str(&Val::Imm(u64::MAX)), "18446744073709551615");
}

#[test]
fn stack_words_print_with_sign_of_offset() {
    assert_eq!(val_to_str(&slot(16)), "[rsp-16]");
    assert_eq!(val_to_str(&slot(0)), "[rsp-0]");
    assert_eq!(val_to_str(&slot(-8)), "[rsp+8]");
    assert_eq!(val_to_str(&slot(i64::MAX)), "[rsp-9223372036854775807]");
    assert_eq!(val_to_str(&slot(i64::MIN)), "[rsp+9223372036854775808]");
    assert_eq!(val_to_str(&Val::RegOffset(Reg::RAX, 8)), "[rax-8]");
}

#[test]
fn labels_print_bare_as_operands() {
    assert_eq!(val_to_str(&label("if_3")), "if_3");
    assert_eq!(instr_to_str(&Instr::Jmp(label("endif_4"))), "\njmp endif_4");
}

#[test]
fn label_definitions_print_with_colon() {
    assert_eq!(instr_to_str(&Instr::Label(label("loop_0"))), "\nloop_0:");
}

#[test]
fn every_instruction_has_its_mnemonic() {
    assert_eq!(instr_to_str(&Instr::IMov(rax(), Val::Imm(5))), "\nmov rax, 5");
    assert_eq!(instr_to_str(&Instr::IAdd(rax(), slot(16))), "\nadd rax, [rsp-16]");
    assert_eq!(instr_to_str(&Instr::ISub(rax(), Val::Imm(2))), "\nsub rax, 2");
    assert_eq!(instr_to_str(&Instr::IMul(rax(), slot(24))), "\nimul rax, [rsp-24]");
    assert_eq!(instr_to_str(&Instr::Shr(rax(), Val::Imm(1))), "\nsar rax,1");
    assert_eq!(instr_to_str(&Instr::Shl(rax(), Val::Imm(1))), "\nshl rax,1");
    assert_eq!(instr_to_str(&Instr::Jmp(label("a"))), "\njmp a");
    assert_eq!(instr_to_str(&Instr::Cmp(rax(), Val::Imm(1))), "\ncmp rax,1");
    assert_eq!(instr_to_str(&Instr::JEqual(label("a"))), "\nje a");
    assert_eq!(instr_to_str(&Instr::JNotEqual(label("a"))), "\njne a");
    assert_eq!(instr_to_str(&Instr::JGreater(label("a"))), "\njg a");
    assert_eq!(instr_to_str(&Instr::JGreaterEqual(label("a"))), "\njge a");
    assert_eq!(instr_to_str(&Instr::JLess(label("a"))), "\njl a");
    assert_eq!(instr_to_str(&Instr::JLessEqual(label("a"))), "\njle a");
    assert_eq!(instr_to_str(&Instr::Test(rax(), Val::Imm(1))), "\ntest rax,1");
    assert_eq!(instr_to_str(&Instr::Xor(rbx(), slot(16))), "\nxor rbx,[rsp-16]");
    assert_eq!(instr_to_str(&Instr::Cmove(rax(), rbx())), "\ncmove rax,rbx");
    assert_eq!(instr_to_str(&Instr::OverFlow()), "\njo overflow");
    assert_eq!(instr_to_str(&Instr::Call(label("snek_print"))), "\ncall snek_print");
    assert_eq!(instr_to_str(&Instr::Push(Val::Reg(Reg::RDI))), "\npush rdi");
    assert_eq!(instr_to_str(&Instr::Pop(Val::Reg(Reg::RDI))), "\npop rdi");
    assert_eq!(instr_to_str(&Instr::Ret()), "\nret");
}

#[test]
fn listing_is_the_instructions_in_order() {
    let code = vec![
        Instr::IMov(rax(), Val::Imm(5)),
        Instr::Shl(rax(), Val::Imm(1)),
        Instr::Ret(),
    ];
    assert_eq!(instrs_to_str(&code), "\nmov rax, 5\nshl rax,1\nret");
    assert_eq!(instrs_to_str(&Vec::new()), "");
}

#[test]
fn decimal_text_of_naturals() {
    let mut s = String::from("n=");
    push_nat(&mut s, 0);
    assert_eq!(s, "n=0");
    let mut s = String::new();
    push_nat(&mut s, 9);
    push_nat(&mut s, 10);
    push_nat(&mut s, 907);
    assert_eq!(s, "910907");
}

#[test]
fn decimal_text_of_integers() {
    let mut s = String::new();
    push_int(&mut s, -1);
    assert_eq!(s, "-1");
    let mut s = String::new();
    push_int(&mut s, i64::MIN);
    assert_eq!(s, "-9223372036854775808");
    let mut s = String::new();
    push_int(&mut s, i64::MAX);
    assert_eq!(s, "9223372036854775807");
}

#[test]
fn labels_count_up() {
    let mut counter = 0;
    assert_eq!(new_label(&mut counter, "if"), "if_0");
    assert_eq!(new_label(&mut counter, "endif"), "endif_1");
    assert_eq!(new_label(&mut counter, "loop"), "loop_2");
    assert_eq!(new_label(&mut counter, "loopend"), "loopend_3");
    assert_eq!(counter, 4);
    let mut counter = -3;
    assert_eq!(new_label(&mut counter, "if"), "if_-3");
    assert_eq!(counter, -2);
    let mut counter = i32::MAX - 1;
    assert_eq!(new_label(&mut counter, "if"), "if_2147483646");
    assert_eq!(counter, i32::MAX);
}

#[test]
fn number_check_tests_lowest_bit() {
    let mut code = vec![Instr::Ret()];
    type_number_check(&mut code);
    assert_eq!(
        code,
        vec![
            Instr::Ret(),
            Instr::Test(rax(), Val::Imm(1)),
            Instr::JNotEqual(label("invalid_arg")),
        ]
    );
}

#[test]
fn same_type_check_tests_lowest_bit_of_xor() {
    let mut code = Vec::new();
    same_type_expr(&mut code, 24);
    assert_eq!(
        code,
        vec![
            Instr::IMov(rbx(), rax()),
            Instr::Xor(rbx(), slot(24)),
            Instr::Test(rbx(), Val::Imm(1)),
            Instr::JNotEqual(label("invalid_arg")),
        ]
    );
}

#[test]
fn comparison_tail_chooses_boolean() {
    let mut code = Vec::new();
    conditional_jmp_compare(&mut code, "endif_1".to_string(), "if_0".to_string());
    assert_eq!(
        code,
        vec![
            Instr::IMov(rax(), Val::Imm(1)),
            Instr::Jmp(label("endif_1")),
            Instr::Label(label("if_0")),
            Instr::IMov(rax(), Val::Imm(3)),
            Instr::Label(label("endif_1")),
        ]
    );
}

#[test]
fn comparison_saves_first_operand_and_checks_both() {
    let mut code = Vec::new();
    compare_size(
        &mut code,
        vec![Instr::IMov(rax(), Val::Imm(2))],
        vec![Instr::IMov(rax(), Val::Imm(4))],
        3,
    );
    assert_eq!(
        code,
        vec![
            Instr::IMov(rax(), Val::Imm(2)),
            Instr::IMov(slot(24), rax()),
            Instr::IMov(rax(), Val::Imm(4)),
            Instr::IMov(rbx(), rax()),
            Instr::Xor(rbx(), slot(24)),
            Instr::Test(rbx(), Val::Imm(1)),
            Instr::JNotEqual(label("invalid_arg")),
            Instr::Test(rax(), Val::Imm(1)),
            Instr::JNotEqual(label("invalid_arg")),
            Instr::Cmp(slot(24), rax()),
        ]
    );
}

#[test]
fn binary_operator_checks_each_operand() {
    let mut code = Vec::new();
    update_vec_binop(
        &mut code,
        vec![Instr::IMov(rax(), Val::Imm(2))],
        vec![Instr::IMov(rax(), Val::Imm(4))],
        Instr::IAdd(rax(), slot(16)),
        2,
    );
    assert_eq!(
        code,
        vec![
            Instr::IMov(rax(), Val::Imm(2)),
            Instr::Test(rax(), Val::Imm(1)),
            Instr::JNotEqual(label("invalid_arg")),
            Instr::IMov(slot(16), rax()),
            Instr::IMov(rax(), Val::Imm(4)),
            Instr::Test(rax(), Val::Imm(1)),
            Instr::JNotEqual(label("invalid_arg")),
            Instr::IAdd(rax(), slot(16)),
        ]
    );
}

#[test]
fn unary_operator_checks_its_operand() {
    let mut code = Vec::new();
    update_vec_unop(
        &mut code,
        vec![Instr::IMov(rax(), Val::Imm(2))],
        Instr::IAdd(rax(), Val::Imm(2)),
    );
    assert_eq!(
        code,
        vec![
            Instr::IMov(rax(), Val::Imm(2)),
            Instr::Test(rax(), Val::Imm(1)),
            Instr::JNotEqual(label("invalid_arg")),
            Instr::IAdd(rax(), Val::Imm(2)),
        ]
    );
}

#[test]
fn isbool_is_true_on_set_bit() {
    let mut code = Vec::new();
    let mut counter = 5;
    check_bool_type_instr(&mut code, &mut counter);
    assert_eq!(counter, 7);
    assert_eq!(
        code,
        vec![
            Instr::Test(rax(), Val::Imm(1)),
            Instr::JNotEqual(label("if_5")),
            Instr::IMov(rax(), Val::Imm(1)),
            Instr::Jmp(label("endif_6")),
            Instr::Label(label("if_5")),
            Instr::IMov(rax(), Val::Imm(3)),
            Instr::Label(label("endif_6")),
        ]
    );
}

#[test]
fn isnum_is_true_on_clear_bit() {
    let mut code = Vec::new();
    let mut counter = 0;
    check_num_type_instr(&mut code, &mut counter);
    assert_eq!(counter, 2);
    assert_eq!(
        code,
        vec![
            Instr::Test(rax(), Val::Imm(1)),
            Instr::JNotEqual(label("if_0")),
            Instr::IMov(rax(), Val::Imm(3)),
            Instr::Jmp(label("endif_1")),
            Instr::Label(label("if_0")),
            Instr::IMov(rax(), Val::Imm(1)),
            Instr::Label(label("endif_1")),
        ]
    );
}

#[test]
fn program_text_has_the_skeleton() {
    let text = assemble("\nf:\nret", "\nmov rax, 3");
    let expected = "
section .text
extern snek_error
extern snek_print
global our_code_starts_here
throw_error:
    push rsp
    call snek_error

f:
ret
our_code_starts_here:
    
mov rax, 3
    ret
overflow:
    mov rdi, 5
    jmp throw_error
invalid_arg:
    mov rdi, 7
    jmp throw_error
";
    assert_eq!(text, expected);
}

#[test]
fn messages_name_what_went_wrong() {
    assert!(CompileError::InvalidShape.message().contains("Invalid"));
    assert!(CompileError::NumberOutOfBounds.message().contains("Invalid"));
    assert!(CompileError::ReservedWord.message().contains("keyword"));
    assert!(CompileError::DuplicateBinding.message().contains("Duplicate binding"));
    assert_eq!(
        CompileError::UnboundIdentifier("abc".to_string()).message(),
        "Error - Unbound variable identifier abc"
    );
    assert!(CompileError::BreakOutsideLoop.message().contains("break must be within a loop"));
    assert_eq!(
        CompileError::DuplicateFunction("f".to_string()).message(),
        "Invalid function declaration, function f declared multiple times."
    );
    assert!(CompileError::UndeclaredFunction.message().contains("Invalid"));
    assert!(CompileError::ArityMismatch.message().contains("Invalid"));
    assert!(CompileError::InputInFunction.message().contains("Invalid"));
    assert!(CompileError::DuplicateParameter.message().contains("Invalid"));
}
