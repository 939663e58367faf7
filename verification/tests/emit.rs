//! The instructions and the text that the compiler emits.

use snek_compiler::compiler::{compile_to_instrs, is_input, word};
use snek_compiler::error::CompileError;
use snek_compiler::limits::{expr_weight, fits, try_compile};
use snek_compiler::parser::parse_program;
use snek_compiler::printer::{assemble, instrs_to_str};
use snek_compiler::program::{compile, compile_definition_instrs, has_repeat};
use snek_compiler::reader::parse_source;
use snek_compiler::syntax::{Atom, Tree};
use snek_compiler::types::{Definition, Expr, Instr, Op1, Op2, Program, Reg, Val};

/// The program that a source text stands for.
fn program_of(text: &str) -> Program {
    let wrapped = format!("({})", text);
    let tree = parse_source(&wrapped).expect("the text is a list of s-expressions");
    parse_program(&tree).expect("the program is legal")
}

/// The text of the main expression of a program.
fn main_text(text: &str) -> String {
    compile(&program_of(text)).expect("the program compiles").1
}

/// The names in a set.
fn names(list: &[&str]) -> im::HashSet<String> {
    list.iter().map(|n| n.to_string()).collect()
}

/// The instructions of an expression at stack index 2, in the empty
/// environment, outside every loop, with the functions `f` and `g` declared.
fn instrs(e: &Expr) -> Result<Vec<Instr>, CompileError> {
    let mut labels = 0;
    compile_to_instrs(e, 2, &im::HashMap::new(), &mut labels, &String::new(), &names(&["f", "g"]))
}

fn id(name: &str) -> Expr {
    Expr::Id(name.to_string())
}

fn boxed(e: Expr) -> Box<Expr> {
    Box::new(e)
}

#[test]
fn let_and_plus_text() {
    assert_eq!(
        main_text("(let ((x 5)) (+ x 10))"),
        "\nmov rax, 5\nshl rax,1\nmov [rsp-16], rax\nmov rax, [rsp-16]\ntest rax,1\njne invalid_arg\nmov [rsp-32], rax\nmov rax, 10\nshl rax,1\ntest rax,1\njne invalid_arg\nadd rax, [rsp-32]\njo overflow"
    );
}

#[test]
fn negative_number_is_moved_as_its_word() {
    assert_eq!(main_text("-1"), "\nmov rax, 18446744073709551615\nshl rax,1");
    assert_eq!(word(-1), u64::MAX);
    assert_eq!(word(0), 0);
    assert_eq!(word(i64::MIN), 1 << 63);
    assert_eq!(word(i64::MAX), i64::MAX as u64);
}

#[test]
fn booleans_are_moved_tagged() {
    assert_eq!(main_text("true"), "\nmov rax, 3");
    assert_eq!(main_text("false"), "\nmov rax, 1");
}

#[test]
fn input_is_copied_from_rdi() {
    assert_eq!(main_text("input"), "\nmov rax, rdi\njo overflow");
    assert!(is_input(&"input".to_string()));
    assert!(!is_input(&"inputs".to_string()));
}

#[test]
fn minus_saves_its_second_operand() {
    assert_eq!(
        main_text("(- 7 2)"),
        "\nmov rax, 2\nshl rax,1\ntest rax,1\njne invalid_arg\nmov [rsp-16], rax\nmov rax, 7\nshl rax,1\ntest rax,1\njne invalid_arg\nsub rax, [rsp-16]\njo overflow"
    );
}

#[test]
fn times_shifts_before_it_multiplies() {
    assert_eq!(
        main_text("(* 7 2)"),
        "\nmov rax, 7\nshl rax,1\ntest rax,1\njne invalid_arg\nmov [rsp-16], rax\nmov rax, 2\nshl rax,1\ntest rax,1\njne invalid_arg\nsar rax,1\nimul rax, [rsp-16]\njo overflow"
    );
}

#[test]
fn times_takes_labels_for_its_second_operand_first() {
    assert_eq!(
        main_text("(* (isnum 1) (isbool 2))"),
        "\nmov rax, 1\nshl rax,1\ntest rax,1\njne if_2\nmov rax, 3\njmp endif_3\nif_2:\nmov rax, 1\nendif_3:\ntest rax,1\njne invalid_arg\nmov [rsp-16], rax\nmov rax, 2\nshl rax,1\ntest rax,1\njne if_0\nmov rax, 1\njmp endif_1\nif_0:\nmov rax, 3\nendif_1:\ntest rax,1\njne invalid_arg\nsar rax,1\nimul rax, [rsp-16]\njo overflow"
    );
}

#[test]
fn equal_checks_types_and_moves_conditionally() {
    assert_eq!(
        main_text("(= 7 true)"),
        "\nmov rax, 3\nmov [rsp-16], rax\nmov rax, 7\nshl rax,1\nmov rbx, rax\nxor rbx,[rsp-16]\ntest rbx,1\njne invalid_arg\ncmp rax,[rsp-16]\nmov rbx, 3\nmov rax, 1\ncmove rax,rbx"
    );
}

#[test]
fn comparison_jumps_on_its_condition() {
    let head = "\nmov rax, 1\nshl rax,1\nmov [rsp-16], rax\nmov rax, 2\nshl rax,1\nmov rbx, rax\nxor rbx,[rsp-16]\ntest rbx,1\njne invalid_arg\ntest rax,1\njne invalid_arg\ncmp [rsp-16],rax";
    let tail = " if_0\nmov rax, 1\njmp endif_1\nif_0:\nmov rax, 3\nendif_1:";
    assert_eq!(main_text("(> 1 2)"), format!("{}\njg{}", head, tail));
    assert_eq!(main_text("(>= 1 2)"), format!("{}\njge{}", head, tail));
    assert_eq!(main_text("(< 1 2)"), format!("{}\njl{}", head, tail));
    assert_eq!(main_text("(<= 1 2)"), format!("{}\njle{}", head, tail));
}

#[test]
fn if_jumps_to_its_second_branch_on_false() {
    assert_eq!(
        main_text("(if true 1 2)"),
        "\nmov rax, 3\ncmp rax,1\nje if_0\nmov rax, 1\nshl rax,1\njmp endif_1\nif_0:\nmov rax, 2\nshl rax,1\nendif_1:"
    );
}

#[test]
fn if_compiles_its_second_branch_one_slot_higher() {
    assert_eq!(
        main_text("(if true (+ 1 2) (+ 3 4))"),
        "\nmov rax, 3\ncmp rax,1\nje if_0\nmov rax, 1\nshl rax,1\ntest rax,1\njne invalid_arg\nmov [rsp-16], rax\nmov rax, 2\nshl rax,1\ntest rax,1\njne invalid_arg\nadd rax, [rsp-16]\njo overflow\njmp endif_1\nif_0:\nmov rax, 3\nshl rax,1\ntest rax,1\njne invalid_arg\nmov [rsp-24], rax\nmov rax, 4\nshl rax,1\ntest rax,1\njne invalid_arg\nadd rax, [rsp-24]\njo overflow\nendif_1:"
    );
}

#[test]
fn loop_and_break_use_the_loop_labels() {
    assert_eq!(
        main_text("(loop (break 1))"),
        "\nloop_0:\nmov rax, 1\nshl rax,1\njmp loopend_1\njmp loop_0\nloopend_1:"
    );
}

#[test]
fn inner_break_leaves_the_inner_loop() {
    assert_eq!(
        main_text("(loop (block (loop (break 1)) (break 2)))"),
        "\nloop_0:\nloop_2:\nmov rax, 1\nshl rax,1\njmp loopend_3\njmp loop_2\nloopend_3:\nmov rax, 2\nshl rax,1\njmp loopend_1\njmp loop_0\nloopend_1:"
    );
}

#[test]
fn set_stores_to_the_slot_of_the_binding() {
    assert_eq!(
        main_text("(let ((x 1) (y 2)) (set! x y))"),
        "\nmov rax, 1\nshl rax,1\nmov [rsp-16], rax\nmov rax, 2\nshl rax,1\nmov [rsp-24], rax\nmov rax, [rsp-24]\nmov [rsp-16], rax"
    );
}

#[test]
fn print_lowers_the_stack_by_an_even_number_of_words() {
    assert_eq!(
        main_text("(print 1)"),
        "\nmov rax, 1\nshl rax,1\nsub rsp, 16\npush rdi\nmov rdi, rax\ncall snek_print\npop rdi\nadd rsp, 16"
    );
    let mut labels = 0;
    let at_three = compile_to_instrs(
        &Expr::UnOp(Op1::Print, boxed(Expr::Boolean(true))),
        3,
        &im::HashMap::new(),
        &mut labels,
        &String::new(),
        &names(&[]),
    )
    .expect("the expression compiles");
    assert_eq!(
        instrs_to_str(&at_three),
        "\nmov rax, 3\nsub rsp, 32\npush rdi\nmov rdi, rax\ncall snek_print\npop rdi\nadd rsp, 32"
    );
}

#[test]
fn call_copies_arguments_above_the_lowered_stack_pointer() {
    let call = Expr::Call("f".to_string(), vec![Expr::Boolean(true), Expr::Boolean(false)]);
    assert_eq!(
        instrs_to_str(&instrs(&call).expect("the call compiles")),
        "\nmov rax, 3\nmov [rsp-16], rax\nmov rax, 1\nmov [rsp-24], rax\nsub rsp, 56\nmov rbx, [rsp+40]\nmov [rsp-0], rbx\nmov rbx, [rsp+32]\nmov [rsp+8], rbx\nmov [rsp+24], rdi\ncall f\nmov rdi, [rsp+24]\nadd rsp, 56"
    );
}

#[test]
fn call_frame_is_an_odd_number_of_words() {
    let call = Expr::Call("g".to_string(), vec![]);
    assert_eq!(
        instrs_to_str(&instrs(&call).expect("the call compiles")),
        "\nsub rsp, 24\nmov [rsp+8], rdi\ncall g\nmov rdi, [rsp+8]\nadd rsp, 24"
    );
    let mut labels = 0;
    let at_three = compile_to_instrs(
        &call,
        3,
        &im::HashMap::new(),
        &mut labels,
        &String::new(),
        &names(&["g"]),
    )
    .expect("the call compiles");
    assert_eq!(
        instrs_to_str(&at_three),
        "\nsub rsp, 40\nmov [rsp+8], rdi\ncall g\nmov rdi, [rsp+8]\nadd rsp, 40"
    );
}

#[test]
fn definition_is_label_body_and_return() {
    let def = Definition::Fun(
        "add".to_string(),
        vec!["a".to_string(), "b".to_string()],
        Expr::BinOp(Op2::Plus, boxed(id("a")), boxed(id("b"))),
    );
    let mut labels = 4;
    let code = compile_definition_instrs(&def, &mut labels, &names(&[]))
        .expect("the definition compiles");
    assert_eq!(labels, 4);
    assert_eq!(
        instrs_to_str(&code),
        "\nadd:\nmov rax, [rsp+8]\ntest rax,1\njne invalid_arg\nmov [rsp-16], rax\nmov rax, [rsp+16]\ntest rax,1\njne invalid_arg\nadd rax, [rsp-16]\njo overflow\nret"
    );
}

#[test]
fn labels_run_on_from_definitions_to_main() {
    let (defs, main) = compile(&program_of(
        "(fun (f x) (isnum x)) (fun (g x) (isbool x)) (if (f 1) (g 2) 3)",
    ))
    .expect("the program compiles");
    assert!(defs.contains("if_0:") && defs.contains("endif_1:"));
    assert!(defs.contains("if_2:") && defs.contains("endif_3:"));
    assert!(main.contains("if_4:") && main.contains("endif_5:"));
    assert!(defs.starts_with("\nf:\n"));
    assert!(defs.contains("\nret\ng:\n"));
    assert!(defs.ends_with("\nret"));
}

#[test]
fn whole_program_text() {
    let (defs, main) =
        compile(&program_of("(fun (one) 1) (one)")).expect("the program compiles");
    let text = assemble(&defs, &main);
    let expected = "
section .text
extern snek_error
extern snek_print
global our_code_starts_here
throw_error:
    push rsp
    call snek_error

one:
mov rax, 1
shl rax,1
ret
our_code_starts_here:
    
sub rsp, 24
mov [rsp+8], rdi
call one
mov rdi, [rsp+8]
add rsp, 24
    ret
overflow:
    mov rdi, 5
    jmp throw_error
invalid_arg:
    mov rdi, 7
    jmp throw_error
";
    assert_eq!(text, expected);
}

#[test]
fn unbound_identifier_is_rejected_with_its_name() {
    assert_eq!(instrs(&id("y")), Err(CompileError::UnboundIdentifier("y".to_string())));
    assert_eq!(
        instrs(&Expr::SetVar("z".to_string(), boxed(Expr::Number(1)))),
        Err(CompileError::UnboundIdentifier("z".to_string()))
    );
    assert_eq!(
        instrs(&Expr::Let(vec![("x".to_string(), id("x"))], boxed(id("x")))),
        Err(CompileError::UnboundIdentifier("x".to_string()))
    );
    let err = instrs(&id("y")).unwrap_err();
    assert!(err.message().contains("Unbound variable identifier y"));
}

#[test]
fn binding_is_gone_behind_its_let() {
    let e = Expr::Block(vec![
        Expr::Let(vec![("x".to_string(), Expr::Number(1))], boxed(id("x"))),
        id("x"),
    ]);
    assert_eq!(instrs(&e), Err(CompileError::UnboundIdentifier("x".to_string())));
}

#[test]
fn duplicate_binding_is_rejected_by_the_compiler() {
    let e = Expr::Let(
        vec![("x".to_string(), Expr::Number(1)), ("x".to_string(), Expr::Number(2))],
        boxed(id("x")),
    );
    assert_eq!(instrs(&e), Err(CompileError::DuplicateBinding));
}

#[test]
fn break_outside_a_loop_is_rejected() {
    assert_eq!(
        instrs(&Expr::Break(boxed(Expr::Number(1)))),
        Err(CompileError::BreakOutsideLoop)
    );
    assert_eq!(
        instrs(&Expr::Break(boxed(id("y")))),
        Err(CompileError::UnboundIdentifier("y".to_string()))
    );
}

#[test]
fn call_of_an_undeclared_function_is_rejected_by_the_compiler() {
    assert_eq!(
        instrs(&Expr::Call("h".to_string(), vec![])),
        Err(CompileError::UndeclaredFunction)
    );
}

#[test]
fn definition_with_a_repeated_parameter_is_rejected() {
    let def = Definition::Fun(
        "f".to_string(),
        vec!["a".to_string(), "b".to_string(), "a".to_string()],
        Expr::Number(1),
    );
    let mut labels = 0;
    assert_eq!(
        compile_definition_instrs(&def, &mut labels, &names(&[])),
        Err(CompileError::DuplicateParameter)
    );
    assert!(has_repeat(&vec!["a".to_string(), "a".to_string()]));
    assert!(!has_repeat(&vec!["a".to_string(), "b".to_string()]));
    assert!(!has_repeat(&vec![]));
}

#[test]
fn program_with_a_repeated_function_is_rejected() {
    let p = program_of("(fun (f) 1) (fun (g) 2) (fun (f) 3) (f)");
    assert_eq!(
        compile(&p).unwrap_err(),
        CompileError::DuplicateFunction("f".to_string())
    );
    assert!(compile(&p).unwrap_err().message().contains("Invalid"));
}

#[test]
fn program_reports_the_first_rejection_in_order() {
    let p = program_of("(fun (f) (break 1)) (fun (f) 3) (f)");
    assert_eq!(compile(&p).unwrap_err(), CompileError::BreakOutsideLoop);
}

#[test]
fn break_in_a_function_body_does_not_see_the_callers_loop() {
    let p = program_of("(fun (f) (break 1)) (loop (f))");
    assert_eq!(compile(&p).unwrap_err(), CompileError::BreakOutsideLoop);
}

#[test]
fn calls_are_checked_against_the_list_of_function_names() {
    let mut p = program_of("(fun (f) 1) (f)");
    assert!(compile(&p).is_ok());
    p.func_list = names(&[]);
    assert_eq!(compile(&p).unwrap_err(), CompileError::UndeclaredFunction);
}

#[test]
fn weight_counts_nodes_bindings_and_arguments() {
    assert_eq!(expr_weight(&Expr::Number(1)), 1);
    assert_eq!(expr_weight(&Expr::UnOp(Op1::Add1, boxed(Expr::Number(1)))), 2);
    assert_eq!(
        expr_weight(&Expr::Let(
            vec![("x".to_string(), Expr::Number(1)), ("y".to_string(), Expr::Number(2))],
            boxed(id("x"))
        )),
        7
    );
    assert_eq!(
        expr_weight(&Expr::Call("f".to_string(), vec![Expr::Number(1), Expr::Number(2)])),
        9
    );
    assert_eq!(expr_weight(&Expr::Block(vec![Expr::Number(1), Expr::Number(2)])), 3);
}

#[test]
fn programs_of_ordinary_size_fit() {
    let p = program_of("(fun (f x) (+ x 1)) (f 2)");
    assert!(fits(&p));
    let texts = try_compile(&p).expect("the program fits").expect("the program compiles");
    assert_eq!(texts, compile(&p).expect("the program compiles"));
}

#[test]
fn stack_words_above_the_stack_pointer_reach_parameters() {
    let def = Definition::Fun(
        "f".to_string(),
        vec!["a".to_string(), "b".to_string(), "c".to_string()],
        id("c"),
    );
    let mut labels = 0;
    let code = compile_definition_instrs(&def, &mut labels, &names(&[]))
        .expect("the definition compiles");
    assert_eq!(
        code,
        vec![
            Instr::Label(Val::Label("f".to_string())),
            Instr::IMov(Val::Reg(Reg::RAX), Val::RegOffset(Reg::RSP, -24)),
            Instr::Ret(),
        ]
    );
}

#[test]
fn source_text_is_compiled_to_program_text() {
    let text = snek_compiler::driver::compile_source("(fun (one) 1) (one)")
        .expect("the program fits")
        .expect("the program compiles");
    let (defs, main) =
        compile(&program_of("(fun (one) 1) (one)")).expect("the program compiles");
    assert_eq!(text, assemble(&defs, &main));
    assert!(text.contains("\none:\nmov rax, 1\nshl rax,1\nret\nour_code_starts_here:"));
}

#[test]
fn source_text_may_hold_comments_and_line_breaks() {
    let text = snek_compiler::driver::compile_source("; a program\n(add1\n  41) ; the answer\n")
        .expect("the program fits")
        .expect("the program compiles");
    assert!(text.contains("\nmov rax, 41\nshl rax,1\ntest rax,1\njne invalid_arg\nadd rax, 2\njo overflow"));
}

#[test]
fn source_text_that_is_no_tree_is_rejected() {
    for text in ["(add1 1", "add1 1)", ")", "(let ((x 1) x"] {
        assert_eq!(
            snek_compiler::driver::compile_source(text),
            Some(Err(CompileError::InvalidShape)),
            "{}",
            text
        );
    }
}

#[test]
fn source_text_reports_the_reason_for_rejecting() {
    let compile_source = snek_compiler::driver::compile_source;
    assert_eq!(compile_source(""), Some(Err(CompileError::InvalidShape)));
    assert_eq!(compile_source("1 2"), Some(Err(CompileError::InvalidShape)));
    assert_eq!(compile_source("1.5"), Some(Err(CompileError::InvalidShape)));
    assert_eq!(compile_source("(f 1)"), Some(Err(CompileError::UndeclaredFunction)));
    assert_eq!(compile_source("(let ((x 1) (x 2)) x)"), Some(Err(CompileError::DuplicateBinding)));
    assert_eq!(compile_source("(break 1)"), Some(Err(CompileError::BreakOutsideLoop)));
    assert_eq!(
        compile_source("y"),
        Some(Err(CompileError::UnboundIdentifier("y".to_string())))
    );
    assert_eq!(
        compile_source("4611686018427387904"),
        Some(Err(CompileError::NumberOutOfBounds))
    );
}

#[test]
fn parse_tree_has_the_atoms_and_lists_of_the_text() {
    assert_eq!(
        parse_source("(a (1 2.5) \"b c\" ())").expect("the text is an s-expression"),
        Tree::List(vec![
            Tree::Atom(Atom::S("a".to_string())),
            Tree::List(vec![Tree::Atom(Atom::I(1)), Tree::Atom(Atom::F)]),
            Tree::Atom(Atom::S("b c".to_string())),
            Tree::List(vec![]),
        ])
    );
}
