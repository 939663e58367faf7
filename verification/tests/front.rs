//! The front end: what it reads out of a parse tree, and what it rejects.

use snek_compiler::error::CompileError;
use snek_compiler::parser::{
    check_reserved_words, find_arg_num, is_def, parse_bind, parse_definition, parse_expr,
    parse_program,
};
use snek_compiler::reader::parse_source;
use snek_compiler::syntax::{Atom, Tree};
use snek_compiler::types::{Definition, Expr, Op1, Op2};

/// The parse tree of one s-expression.
fn tree(text: &str) -> Tree {
    parse_source(text).expect("the text is an s-expression")
}

/// The arity table with the given entries.
fn arities(entries: &[(&str, u64)]) -> im::HashMap<String, u64> {
    let mut table = im::HashMap::new();
    for (name, arity) in entries {
        table.insert(name.to_string(), *arity);
    }
    table
}

/// What reading `text` as an expression of the main program gives.
fn read(text: &str) -> Result<Expr, CompileError> {
    parse_expr(&tree(text), false, &arities(&[("f", 2), ("g", 0)]))
}

/// What reading `text` as an expression of a function body gives.
fn read_in_function(text: &str) -> Result<Expr, CompileError> {
    parse_expr(&tree(text), true, &arities(&[("f", 2), ("g", 0)]))
}

fn id(name: &str) -> Expr {
    Expr::Id(name.to_string())
}

fn boxed(e: Expr) -> Box<Expr> {
    Box::new(e)
}

#[test]
fn numbers_within_the_range_are_read() {
    assert_eq!(read("644"), Ok(Expr::Number(644)));
    assert_eq!(read("-5"), Ok(Expr::Number(-5)));
    assert_eq!(read("4611686018427387903"), Ok(Expr::Number(4611686018427387903)));
    assert_eq!(read("-4611686018427387904"), Ok(Expr::Number(-4611686018427387904)));
}

#[test]
fn numbers_outside_the_range_are_rejected() {
    assert_eq!(read("4611686018427387904"), Err(CompileError::NumberOutOfBounds));
    assert_eq!(read("-4611686018427387905"), Err(CompileError::NumberOutOfBounds));
    assert_eq!(read("(add1 9223372036854775807)"), Err(CompileError::NumberOutOfBounds));
}

#[test]
fn floats_are_rejected() {
    assert_eq!(read("1.5"), Err(CompileError::InvalidShape));
}

#[test]
fn symbols_are_booleans_or_identifiers() {
    assert_eq!(read("true"), Ok(Expr::Boolean(true)));
    assert_eq!(read("false"), Ok(Expr::Boolean(false)));
    assert_eq!(read("x"), Ok(id("x")));
    assert_eq!(read("input"), Ok(id("input")));
}

#[test]
fn input_is_rejected_in_a_function_body() {
    assert_eq!(read_in_function("input"), Err(CompileError::InputInFunction));
    assert_eq!(read_in_function("(add1 input)"), Err(CompileError::InputInFunction));
    assert_eq!(
        read_in_function("(let ((x input)) x)"),
        Err(CompileError::InputInFunction)
    );
    assert_eq!(read_in_function("x"), Ok(id("x")));
}

#[test]
fn unary_operators_are_read() {
    assert_eq!(read("(add1 1)"), Ok(Expr::UnOp(Op1::Add1, boxed(Expr::Number(1)))));
    assert_eq!(read("(sub1 x)"), Ok(Expr::UnOp(Op1::Sub1, boxed(id("x")))));
    assert_eq!(read("(isnum x)"), Ok(Expr::UnOp(Op1::IsNum, boxed(id("x")))));
    assert_eq!(read("(isbool x)"), Ok(Expr::UnOp(Op1::IsBool, boxed(id("x")))));
    assert_eq!(read("(print x)"), Ok(Expr::UnOp(Op1::Print, boxed(id("x")))));
}

#[test]
fn binary_operators_are_read() {
    let ops = [
        ("+", Op2::Plus),
        ("-", Op2::Minus),
        ("*", Op2::Times),
        ("=", Op2::Equal),
        (">", Op2::Greater),
        (">=", Op2::GreaterEqual),
        ("<", Op2::Less),
        ("<=", Op2::LessEqual),
    ];
    for (text, op) in ops {
        assert_eq!(
            read(&format!("({} a 2)", text)),
            Ok(Expr::BinOp(op, boxed(id("a")), boxed(Expr::Number(2))))
        );
    }
}

#[test]
fn control_forms_are_read() {
    assert_eq!(
        read("(if a b c)"),
        Ok(Expr::If(boxed(id("a")), boxed(id("b")), boxed(id("c"))))
    );
    assert_eq!(read("(loop a)"), Ok(Expr::Loop(boxed(id("a")))));
    assert_eq!(read("(break a)"), Ok(Expr::Break(boxed(id("a")))));
    assert_eq!(
        read("(set! a 1)"),
        Ok(Expr::SetVar("a".to_string(), boxed(Expr::Number(1))))
    );
    assert_eq!(read("(block a b)"), Ok(Expr::Block(vec![id("a"), id("b")])));
}

#[test]
fn let_is_read_with_its_bindings_in_order() {
    assert_eq!(
        read("(let ((x 1) (y x)) y)"),
        Ok(Expr::Let(
            vec![("x".to_string(), Expr::Number(1)), ("y".to_string(), id("x"))],
            boxed(id("y"))
        ))
    );
}

#[test]
fn let_without_bindings_is_rejected() {
    assert_eq!(read("(let () 1)"), Err(CompileError::InvalidShape));
}

#[test]
fn let_with_a_malformed_binding_is_rejected() {
    assert_eq!(read("(let (x) 1)"), Err(CompileError::InvalidShape));
    assert_eq!(read("(let ((x)) 1)"), Err(CompileError::InvalidShape));
    assert_eq!(read("(let ((x 1 2)) 1)"), Err(CompileError::InvalidShape));
    assert_eq!(read("(let ((1 2)) 1)"), Err(CompileError::InvalidShape));
}

#[test]
fn let_that_binds_a_reserved_word_is_rejected() {
    for word in ["let", "input", "true", "add1", "fun", "set!", "<="] {
        assert_eq!(
            read(&format!("(let (({} 1)) 2)", word)),
            Err(CompileError::ReservedWord)
        );
    }
}

#[test]
fn let_that_binds_a_name_twice_is_rejected() {
    assert_eq!(read("(let ((x 1) (x 2)) x)"), Err(CompileError::DuplicateBinding));
    assert_eq!(
        read("(let ((x 1) (y 2) (x 3)) x)"),
        Err(CompileError::DuplicateBinding)
    );
    assert!(read("(let ((x 1)) (let ((x 2)) x))").is_ok());
}

#[test]
fn empty_block_is_rejected() {
    assert_eq!(read("(block)"), Err(CompileError::InvalidShape));
}

#[test]
fn empty_list_and_list_without_a_head_symbol_are_rejected() {
    assert_eq!(read("()"), Err(CompileError::InvalidShape));
    assert_eq!(read("(1 2)"), Err(CompileError::InvalidShape));
    assert_eq!(read("((f) 2)"), Err(CompileError::InvalidShape));
}

#[test]
fn keyword_with_wrong_operands_is_rejected() {
    assert_eq!(read("(add1 1 2)"), Err(CompileError::ReservedWord));
    assert_eq!(read("(+ 1)"), Err(CompileError::ReservedWord));
    assert_eq!(read("(if 1 2)"), Err(CompileError::ReservedWord));
    assert_eq!(read("(let x 1)"), Err(CompileError::ReservedWord));
    assert_eq!(read("(set! 1 2)"), Err(CompileError::ReservedWord));
    assert_eq!(read("(input)"), Err(CompileError::ReservedWord));
    assert_eq!(read("(true 1)"), Err(CompileError::ReservedWord));
}

#[test]
fn calls_are_read_with_their_arguments() {
    assert_eq!(
        read("(f 1 x)"),
        Ok(Expr::Call("f".to_string(), vec![Expr::Number(1), id("x")]))
    );
    assert_eq!(read("(g)"), Ok(Expr::Call("g".to_string(), vec![])));
}

#[test]
fn call_of_an_undeclared_function_is_rejected() {
    assert_eq!(read("(h 1)"), Err(CompileError::UndeclaredFunction));
}

#[test]
fn call_with_wrong_number_of_arguments_is_rejected() {
    assert_eq!(read("(f 1)"), Err(CompileError::ArityMismatch));
    assert_eq!(read("(f 1 2 3)"), Err(CompileError::ArityMismatch));
    assert_eq!(read("(g 1)"), Err(CompileError::ArityMismatch));
}

#[test]
fn first_rejection_from_the_left_wins() {
    assert_eq!(
        read("(+ (h 1) 4611686018427387904)"),
        Err(CompileError::UndeclaredFunction)
    );
    assert_eq!(
        read("(+ 4611686018427387904 (h 1))"),
        Err(CompileError::NumberOutOfBounds)
    );
}

#[test]
fn reserved_words_are_the_twenty_three() {
    let words = [
        "let", "block", "set!", "loop", "break", "if", "input", "+", "-", "*", "=", "true",
        "false", ">", "<", ">=", "<=", "fun", "print", "sub1", "add1", "isnum", "isbool",
    ];
    for word in words {
        assert!(check_reserved_words(word.to_string()), "{}", word);
    }
    for word in ["x", "Let", "inputs", "", "add2", "==", "snek_print"] {
        assert!(!check_reserved_words(word.to_string()), "{}", word);
    }
}

#[test]
fn binding_is_a_name_and_an_expression() {
    let table = arities(&[]);
    assert_eq!(
        parse_bind(&tree("(x 5)"), false, &table),
        Ok(("x".to_string(), Expr::Number(5)))
    );
    assert_eq!(parse_bind(&tree("x"), false, &table), Err(CompileError::InvalidShape));
    assert_eq!(
        parse_bind(&tree("(if 5)"), false, &table),
        Err(CompileError::ReservedWord)
    );
    assert_eq!(
        parse_bind(&tree("(x input)"), true, &table),
        Err(CompileError::InputInFunction)
    );
}

#[test]
fn definition_shape_is_recognised() {
    assert!(is_def(&tree("(fun (f x) x)")));
    assert!(is_def(&tree("(fun () x)")));
    assert!(!is_def(&tree("(fun f x)")));
    assert!(!is_def(&tree("(fun (f x))")));
    assert!(!is_def(&tree("(fun (f x) x x)")));
    assert!(!is_def(&tree("(fn (f x) x)")));
    assert!(!is_def(&tree("fun")));
    assert!(!is_def(&tree("5")));
}

#[test]
fn definition_is_read_with_name_parameters_and_body() {
    let table = arities(&[("f", 2)]);
    assert_eq!(
        parse_definition(&tree("(fun (f a b) (+ a b))"), &table),
        Ok((
            Definition::Fun(
                "f".to_string(),
                vec!["a".to_string(), "b".to_string()],
                Expr::BinOp(Op2::Plus, boxed(id("a")), boxed(id("b")))
            ),
            "f".to_string()
        ))
    );
}

#[test]
fn malformed_definition_is_rejected() {
    let table = arities(&[]);
    assert_eq!(
        parse_definition(&tree("(+ 1 2)"), &table).unwrap_err(),
        CompileError::InvalidShape
    );
    assert_eq!(
        parse_definition(&tree("(fun () 1)"), &table).unwrap_err(),
        CompileError::InvalidShape
    );
    assert_eq!(
        parse_definition(&tree("(fun (5 x) 1)"), &table).unwrap_err(),
        CompileError::InvalidShape
    );
    assert_eq!(
        parse_definition(&tree("(fun (f 5) 1)"), &table).unwrap_err(),
        CompileError::InvalidShape
    );
    assert_eq!(
        parse_definition(&tree("(fun (f (x)) 1)"), &table).unwrap_err(),
        CompileError::InvalidShape
    );
}

#[test]
fn definition_with_reserved_name_or_parameter_is_rejected() {
    let table = arities(&[]);
    assert_eq!(
        parse_definition(&tree("(fun (add1 x) x)"), &table).unwrap_err(),
        CompileError::ReservedWord
    );
    assert_eq!(
        parse_definition(&tree("(fun (f input) 1)"), &table).unwrap_err(),
        CompileError::ReservedWord
    );
    assert_eq!(
        parse_definition(&tree("(fun (f x let) 1)"), &table).unwrap_err(),
        CompileError::ReservedWord
    );
}

#[test]
fn definition_body_may_not_read_input() {
    let table = arities(&[]);
    assert_eq!(
        parse_definition(&tree("(fun (f x) (+ x input))"), &table).unwrap_err(),
        CompileError::InputInFunction
    );
}

#[test]
fn arity_table_collects_definitions() {
    let mut table = im::HashMap::new();
    assert_eq!(find_arg_num(&mut table, &tree("(fun (f a b) a)")), Ok(()));
    assert_eq!(find_arg_num(&mut table, &tree("(fun (g) 1)")), Ok(()));
    assert_eq!(find_arg_num(&mut table, &tree("(+ 1 2)")), Ok(()));
    assert_eq!(find_arg_num(&mut table, &tree("7")), Ok(()));
    assert_eq!(table.len(), 2);
    assert_eq!(table.get("f"), Some(&2));
    assert_eq!(table.get("g"), Some(&0));
    assert_eq!(find_arg_num(&mut table, &tree("(fun (f a) a)")), Ok(()));
    assert_eq!(table.get("f"), Some(&1));
}

#[test]
fn arity_table_rejects_a_definition_without_a_name() {
    let mut table = im::HashMap::new();
    table.insert("f".to_string(), 1);
    assert_eq!(
        find_arg_num(&mut table, &tree("(fun () 1)")),
        Err(CompileError::InvalidShape)
    );
    assert_eq!(
        find_arg_num(&mut table, &tree("(fun (5) 1)")),
        Err(CompileError::InvalidShape)
    );
    assert_eq!(table.len(), 1);
}

#[test]
fn program_is_definitions_and_one_main_expression() {
    let p = parse_program(&tree("((fun (f a) (g a 1)) (fun (g a b) (+ a b)) (f input))"))
        .expect("the program is legal");
    assert_eq!(p.defs.len(), 2);
    assert_eq!(
        p.defs[0],
        Definition::Fun(
            "f".to_string(),
            vec!["a".to_string()],
            Expr::Call("g".to_string(), vec![id("a"), Expr::Number(1)])
        )
    );
    assert_eq!(p.main, Expr::Call("f".to_string(), vec![id("input")]));
    assert_eq!(p.func_list.len(), 2);
    assert!(p.func_list.contains("f"));
    assert!(p.func_list.contains("g"));
    assert!(!p.func_list.contains("h"));
}

#[test]
fn program_without_definitions() {
    let p = parse_program(&tree("(5)")).expect("the program is legal");
    assert_eq!(p.defs.len(), 0);
    assert_eq!(p.main, Expr::Number(5));
    assert_eq!(p.func_list.len(), 0);
}

#[test]
fn program_that_is_no_list_is_rejected() {
    assert_eq!(parse_program(&tree("5")).unwrap_err(), CompileError::InvalidShape);
}

#[test]
fn program_without_main_expression_is_rejected() {
    assert_eq!(parse_program(&tree("()")).unwrap_err(), CompileError::InvalidShape);
    assert_eq!(
        parse_program(&tree("((fun (f) 1))")).unwrap_err(),
        CompileError::InvalidShape
    );
}

#[test]
fn program_with_anything_behind_main_is_rejected() {
    assert_eq!(parse_program(&tree("(1 2)")).unwrap_err(), CompileError::InvalidShape);
    assert_eq!(
        parse_program(&tree("((f) (fun (f) 1))")).unwrap_err(),
        CompileError::InvalidShape
    );
}

#[test]
fn program_reports_the_first_bad_definition() {
    assert_eq!(
        parse_program(&tree("((fun (f x) (h x)) (fun (g) input) 1)")).unwrap_err(),
        CompileError::UndeclaredFunction
    );
    assert_eq!(
        parse_program(&tree("((fun (f x) x) (fun (g) input) (h))")).unwrap_err(),
        CompileError::InputInFunction
    );
}

#[test]
fn program_main_may_read_input() {
    assert!(parse_program(&tree("((fun (f x) x) (f input))")).is_ok());
}

#[test]
fn text_that_is_no_tree_has_no_parse_tree() {
    assert_eq!(parse_source("(a"), None);
    assert_eq!(parse_source("a)"), None);
    assert_eq!(parse_source(""), None);
    assert_eq!(parse_source("a b"), None);
}

#[test]
fn atoms_are_symbols_integers_or_floats() {
    assert_eq!(parse_source("-12"), Some(Tree::Atom(Atom::I(-12))));
    assert_eq!(parse_source("x1"), Some(Tree::Atom(Atom::S("x1".to_string()))));
    assert_eq!(parse_source("1e3"), Some(Tree::Atom(Atom::F)));
    assert_eq!(
        parse_source("9223372036854775808"),
        Some(Tree::Atom(Atom::F))
    );
}
