//! Runs compiled programs on a small model of the processor, and checks what
//! they return, print and report.

use std::collections::HashMap;

use snek_compiler::compiler::compile_to_instrs;
use snek_compiler::error::CompileError;
use snek_compiler::parser::parse_program;
use snek_compiler::program::compile_definition_instrs;
use snek_compiler::reader::parse_source;
use snek_compiler::types::{Instr, Program, Reg, Val};

/// The program that a source text stands for.
fn program_of(text: &str) -> Result<Program, CompileError> {
    let wrapped = format!("({})", text);
    let tree = parse_source(&wrapped).expect("the text is a list of s-expressions");
    parse_program(&tree)
}

/// The whole instruction list of a program: its definitions, its main
/// expression under the entry label, and the trampolines.
fn link(p: &Program) -> Result<Vec<Instr>, CompileError> {
    let mut labels = 0;
    let mut code = Vec::new();
    for def in &p.defs {
        code.extend(compile_definition_instrs(def, &mut labels, &p.func_list)?);
    }
    code.push(Instr::Label(Val::Label("our_code_starts_here".to_string())));
    code.extend(compile_to_instrs(
        &p.main,
        2,
        &im::HashMap::new(),
        &mut labels,
        &String::new(),
        &p.func_list,
    )?);
    code.push(Instr::Ret());
    code.push(Instr::Label(Val::Label("overflow".to_string())));
    code.push(Instr::IMov(Val::Reg(Reg::RDI), Val::Imm(5)));
    code.push(Instr::Jmp(Val::Label("throw_error".to_string())));
    code.push(Instr::Label(Val::Label("invalid_arg".to_string())));
    code.push(Instr::IMov(Val::Reg(Reg::RDI), Val::Imm(7)));
    code.push(Instr::Jmp(Val::Label("throw_error".to_string())));
    Ok(code)
}

/// How a run ended.
#[derive(Debug, PartialEq, Eq)]
enum Outcome {
    /// The program returned this tagged word.
    Returned(i64),
    /// The program reported this error code to the runtime.
    Failed(i64),
    /// The program ran longer than the test allows.
    OutOfSteps,
}

/// The model of the processor: four registers, the flags that the jumps
/// read, the stack, and what the runtime printed.
struct Machine {
    rax: i64,
    rbx: i64,
    rdi: i64,
    rsp: i64,
    zero: bool,
    sign: bool,
    overflow: bool,
    memory: HashMap<i64, i64>,
    printed: Vec<i64>,
}

const HALT: i64 = -1;

impl Machine {
    fn new(input: i64) -> Machine {
        let mut m = Machine {
            rax: 0,
            rbx: 0,
            rdi: input,
            rsp: 0x10_0008,
            zero: false,
            sign: false,
            overflow: false,
            memory: HashMap::new(),
            printed: Vec::new(),
        };
        m.memory.insert(m.rsp, HALT);
        m
    }

    fn reg(&self, r: &Reg) -> i64 {
        match r {
            Reg::RAX => self.rax,
            Reg::RBX => self.rbx,
            Reg::RDI => self.rdi,
            Reg::RSP => self.rsp,
        }
    }

    fn set_reg(&mut self, r: &Reg, v: i64) {
        match r {
            Reg::RAX => self.rax = v,
            Reg::RBX => self.rbx = v,
            Reg::RDI => self.rdi = v,
            Reg::RSP => self.rsp = v,
        }
    }

    fn read(&self, v: &Val) -> i64 {
        match v {
            Val::Reg(r) => self.reg(r),
            Val::Imm(n) => *n as i64,
            Val::RegOffset(r, n) => *self
                .memory
                .get(&(self.reg(r) - n))
                .expect("the word was written before it is read"),
            Val::Label(name) => panic!("the label {} is no value", name),
        }
    }

    fn write(&mut self, v: &Val, word: i64) {
        match v {
            Val::Reg(r) => self.set_reg(r, word),
            Val::RegOffset(r, n) => {
                let address = self.reg(r) - n;
                assert!(address % 8 == 0);
                self.memory.insert(address, word);
            }
            _ => panic!("not a place to write to"),
        }
    }

    fn set_flags(&mut self, result: i64, overflow: bool) {
        self.zero = result == 0;
        self.sign = result < 0;
        self.overflow = overflow;
    }

    fn push(&mut self, word: i64) {
        self.rsp -= 8;
        self.memory.insert(self.rsp, word);
    }

    fn pop(&mut self) -> i64 {
        let word = *self.memory.get(&self.rsp).expect("the stack holds a word");
        self.rsp += 8;
        word
    }
}

/// The name of a label operand.
fn target(v: &Val) -> &str {
    match v {
        Val::Label(name) => name,
        _ => panic!("a jump needs a label"),
    }
}

/// Runs a linked program with `input` in `rdi`. Returns how it ended and
/// what it printed.
fn run(code: &[Instr], input: i64) -> (Outcome, Vec<i64>) {
    let mut places: HashMap<&str, usize> = HashMap::new();
    for (i, instr) in code.iter().enumerate() {
        if let Instr::Label(Val::Label(name)) = instr {
            let earlier = places.insert(name.as_str(), i);
            assert!(earlier.is_none(), "the label {} is defined twice", name);
        }
    }
    let mut m = Machine::new(input);
    let mut pc = places["our_code_starts_here"];
    let mut steps = 0;
    loop {
        steps += 1;
        if steps > 2_000_000 {
            return (Outcome::OutOfSteps, m.printed);
        }
        let mut next = pc + 1;
        let mut jump_to: Option<&str> = None;
        match &code[pc] {
            Instr::IMov(dst, src) => {
                let word = m.read(src);
                m.write(dst, word);
            }
            Instr::IAdd(dst, src) => {
                let (word, over) = m.read(dst).overflowing_add(m.read(src));
                m.write(dst, word);
                m.set_flags(word, over);
            }
            Instr::ISub(dst, src) => {
                let (word, over) = m.read(dst).overflowing_sub(m.read(src));
                m.write(dst, word);
                m.set_flags(word, over);
            }
            Instr::IMul(dst, src) => {
                let (word, over) = m.read(dst).overflowing_mul(m.read(src));
                m.write(dst, word);
                m.set_flags(word, over);
            }
            Instr::Shr(dst, src) => {
                let word = m.read(dst) >> m.read(src);
                m.write(dst, word);
                m.set_flags(word, false);
            }
            Instr::Shl(dst, src) => {
                let before = m.read(dst);
                let word = before << m.read(src);
                m.write(dst, word);
                m.set_flags(word, (word < 0) != (before < 0));
            }
            Instr::Cmp(a, b) => {
                let (word, over) = m.read(a).overflowing_sub(m.read(b));
                m.set_flags(word, over);
            }
            Instr::Test(a, b) => {
                let word = m.read(a) & m.read(b);
                m.set_flags(word, false);
            }
            Instr::Xor(dst, src) => {
                let word = m.read(dst) ^ m.read(src);
                m.write(dst, word);
                m.set_flags(word, false);
            }
            Instr::Cmove(dst, src) => {
                if m.zero {
                    let word = m.read(src);
                    m.write(dst, word);
                }
            }
            Instr::Jmp(v) => jump_to = Some(target(v)),
            Instr::JEqual(v) => {
                if m.zero {
                    jump_to = Some(target(v));
                }
            }
            Instr::JNotEqual(v) => {
                if !m.zero {
                    jump_to = Some(target(v));
                }
            }
            Instr::JGreater(v) => {
                if !m.zero && m.sign == m.overflow {
                    jump_to = Some(target(v));
                }
            }
            Instr::JGreaterEqual(v) => {
                if m.sign == m.overflow {
                    jump_to = Some(target(v));
                }
            }
            Instr::JLess(v) => {
                if m.sign != m.overflow {
                    jump_to = Some(target(v));
                }
            }
            Instr::JLessEqual(v) => {
                if m.zero || m.sign != m.overflow {
                    jump_to = Some(target(v));
                }
            }
            Instr::OverFlow() => {
                if m.overflow {
                    jump_to = Some("overflow");
                }
            }
            Instr::Label(_) => {}
            Instr::Call(v) => {
                let name = target(v);
                if name == "snek_print" {
                    assert!(m.rsp % 16 == 0, "the stack is not aligned at the call");
                    m.printed.push(m.rdi);
                    m.rax = m.rdi;
                    // The runtime may use every word below the stack pointer
                    // and need not keep `rdi`.
                    let below: Vec<i64> =
                        m.memory.keys().copied().filter(|a| *a < m.rsp).collect();
                    for address in below {
                        m.memory.insert(address, 0x5555_5555);
                    }
                    m.rdi = 0x7777_7777;
                } else {
                    assert!(m.rsp % 16 == 0, "the stack is not aligned at the call");
                    m.push(next as i64);
                    jump_to = Some(name);
                }
            }
            Instr::Push(v) => {
                let word = m.read(v);
                m.push(word);
            }
            Instr::Pop(v) => {
                let word = m.pop();
                m.write(v, word);
            }
            Instr::Ret() => {
                let back = m.pop();
                if back == HALT {
                    return (Outcome::Returned(m.rax), m.printed);
                }
                next = back as usize;
            }
        }
        if let Some(name) = jump_to {
            if name == "throw_error" {
                return (Outcome::Failed(m.rdi), m.printed);
            }
            next = *places
                .get(name)
                .unwrap_or_else(|| panic!("the label {} is not defined", name));
        }
        pc = next;
    }
}

/// Compiles a source text and runs it with the tagged word `input`.
fn eval(text: &str, input: i64) -> (Outcome, Vec<i64>) {
    let program = program_of(text).expect("the program is legal");
    let code = link(&program).expect("the program compiles");
    run(&code, input)
}

/// The tagged word of a number.
fn num(n: i64) -> i64 {
    n << 1
}

const TRUE: i64 = 3;
const FALSE: i64 = 1;

#[test]
fn let_and_plus_gives_fifteen() {
    assert_eq!(eval("(let ((x 5)) (+ x 10))", FALSE).0, Outcome::Returned(num(15)));
}

#[test]
fn if_on_positive_input_adds_one() {
    let text = "(if (> input 0) (add1 input) (sub1 input))";
    assert_eq!(eval(text, num(7)).0, Outcome::Returned(num(8)));
}

#[test]
fn if_on_negative_input_subtracts_one() {
    let text = "(if (> input 0) (add1 input) (sub1 input))";
    assert_eq!(eval(text, num(-3)).0, Outcome::Returned(num(-4)));
}

#[test]
fn loop_computes_factorial() {
    let text = "(let ((n input)) (let ((acc 1)) (block (loop (if (= n 0) (break acc) (block (set! acc (* acc n)) (set! n (sub1 n))))))))";
    assert_eq!(eval(text, num(5)).0, Outcome::Returned(num(120)));
}

#[test]
fn mutual_recursion_on_even_input() {
    let text = "(fun (even n) (if (= n 0) true (odd (sub1 n)))) (fun (odd n) (if (= n 0) false (even (sub1 n)))) (even input)";
    assert_eq!(eval(text, num(10)).0, Outcome::Returned(TRUE));
}

#[test]
fn mutual_recursion_on_odd_input() {
    let text = "(fun (even n) (if (= n 0) true (odd (sub1 n)))) (fun (odd n) (if (= n 0) false (even (sub1 n)))) (even input)";
    assert_eq!(eval(text, num(9)).0, Outcome::Returned(FALSE));
}

#[test]
fn sum_beyond_the_range_reports_overflow() {
    assert_eq!(eval("(+ 4611686018427387900 10)", FALSE).0, Outcome::Failed(5));
}

#[test]
fn number_plus_boolean_reports_invalid_argument() {
    assert_eq!(eval("(+ 1 true)", FALSE).0, Outcome::Failed(7));
}

#[test]
fn duplicate_binding_is_rejected() {
    let err = program_of("(let ((x 1) (x 2)) x)").unwrap_err();
    assert_eq!(err, CompileError::DuplicateBinding);
    assert!(err.message().contains("Duplicate binding"));
}

#[test]
fn break_at_top_level_is_rejected() {
    let program = program_of("(break 1)").expect("the program parses");
    let err = link(&program).unwrap_err();
    assert_eq!(err, CompileError::BreakOutsideLoop);
    assert!(err.message().contains("break must be within a loop"));
}

#[test]
fn inner_binding_shadows_outer() {
    assert_eq!(eval("(let ((x 3)) (let ((x 4)) x))", FALSE).0, Outcome::Returned(num(4)));
}

#[test]
fn outer_binding_is_back_after_inner_scope() {
    assert_eq!(
        eval("(let ((x 3)) (+ (let ((x 4)) x) x))", FALSE).0,
        Outcome::Returned(num(7))
    );
}

#[test]
fn equal_on_same_numbers_is_true() {
    assert_eq!(eval("(= 12 12)", FALSE).0, Outcome::Returned(TRUE));
    assert_eq!(eval("(= 12 13)", FALSE).0, Outcome::Returned(FALSE));
    assert_eq!(eval("(= true true)", FALSE).0, Outcome::Returned(TRUE));
    assert_eq!(eval("(= true false)", FALSE).0, Outcome::Returned(FALSE));
}

#[test]
fn equal_on_number_and_boolean_reports_invalid_argument() {
    assert_eq!(eval("(= 1 true)", FALSE).0, Outcome::Failed(7));
    assert_eq!(eval("(= false 0)", FALSE).0, Outcome::Failed(7));
}

#[test]
fn minus_subtracts_second_from_first() {
    assert_eq!(eval("(- 10 3)", FALSE).0, Outcome::Returned(num(7)));
    assert_eq!(eval("(- 3 10)", FALSE).0, Outcome::Returned(num(-7)));
}

#[test]
fn times_multiplies() {
    assert_eq!(eval("(* 6 -7)", FALSE).0, Outcome::Returned(num(-42)));
    assert_eq!(eval("(* 4611686018427387903 2)", FALSE).0, Outcome::Failed(5));
}

#[test]
fn extreme_literals_keep_their_value() {
    assert_eq!(
        eval("4611686018427387903", FALSE).0,
        Outcome::Returned(num(4611686018427387903))
    );
    assert_eq!(
        eval("-4611686018427387904", FALSE).0,
        Outcome::Returned(num(-4611686018427387904))
    );
}

#[test]
fn add1_beyond_the_range_reports_overflow() {
    assert_eq!(eval("(add1 4611686018427387903)", FALSE).0, Outcome::Failed(5));
    assert_eq!(eval("(sub1 -4611686018427387904)", FALSE).0, Outcome::Failed(5));
}

#[test]
fn comparisons_order_numbers() {
    assert_eq!(eval("(< 1 2)", FALSE).0, Outcome::Returned(TRUE));
    assert_eq!(eval("(< 2 1)", FALSE).0, Outcome::Returned(FALSE));
    assert_eq!(eval("(<= 2 2)", FALSE).0, Outcome::Returned(TRUE));
    assert_eq!(eval("(> 2 1)", FALSE).0, Outcome::Returned(TRUE));
    assert_eq!(eval("(>= 1 2)", FALSE).0, Outcome::Returned(FALSE));
    assert_eq!(eval("(> true 1)", FALSE).0, Outcome::Failed(7));
    assert_eq!(eval("(< true false)", FALSE).0, Outcome::Failed(7));
}

#[test]
fn type_tests_tell_numbers_from_booleans() {
    assert_eq!(eval("(isnum 5)", FALSE).0, Outcome::Returned(TRUE));
    assert_eq!(eval("(isnum false)", FALSE).0, Outcome::Returned(FALSE));
    assert_eq!(eval("(isbool 5)", FALSE).0, Outcome::Returned(FALSE));
    assert_eq!(eval("(isbool true)", FALSE).0, Outcome::Returned(TRUE));
    assert_eq!(eval("(isnum input)", num(547)).0, Outcome::Returned(TRUE));
}

#[test]
fn any_value_but_false_is_truthy() {
    assert_eq!(eval("(if 0 1 2)", FALSE).0, Outcome::Returned(num(1)));
    assert_eq!(eval("(if true 1 2)", FALSE).0, Outcome::Returned(num(1)));
    assert_eq!(eval("(if false 1 2)", FALSE).0, Outcome::Returned(num(2)));
}

#[test]
fn print_hands_the_value_on() {
    let (outcome, printed) = eval("(add1 (print 5))", FALSE);
    assert_eq!(outcome, Outcome::Returned(num(6)));
    assert_eq!(printed, vec![num(5)]);
}

#[test]
fn print_keeps_live_slots_and_input() {
    let text = "(let ((a 1) (b 2)) (+ (+ a (print b)) (+ input (print (+ a b)))))";
    let (outcome, printed) = eval(text, num(100));
    assert_eq!(outcome, Outcome::Returned(num(106)));
    assert_eq!(printed, vec![num(2), num(3)]);
}

#[test]
fn call_without_arguments() {
    let text = "(fun (seven) 7) (+ (seven) (seven))";
    assert_eq!(eval(text, FALSE).0, Outcome::Returned(num(14)));
}

#[test]
fn call_passes_arguments_in_order() {
    let text = "(fun (f a b c d e) (- (- (- (- a b) c) d) e)) (f 100 1 2 3 4)";
    assert_eq!(eval(text, FALSE).0, Outcome::Returned(num(90)));
}

#[test]
fn call_evaluates_arguments_from_left_to_right() {
    let text = "(fun (f a b c) (+ a (+ b c))) (f (print 1) (print 2) (print 3))";
    let (outcome, printed) = eval(text, FALSE);
    assert_eq!(outcome, Outcome::Returned(num(6)));
    assert_eq!(printed, vec![num(1), num(2), num(3)]);
}

#[test]
fn call_keeps_live_slots_and_input() {
    let text = "(fun (g x y z) (block (print x) (print y) (* x (+ y z)))) (let ((a 5) (b 6)) (+ (+ a (g b a 1)) (+ input b)))";
    let (outcome, printed) = eval(text, num(1000));
    assert_eq!(outcome, Outcome::Returned(num(5 + 36 + 1000 + 6)));
    assert_eq!(printed, vec![num(6), num(5)]);
}

#[test]
fn nested_calls_at_odd_and_even_stack_indexes() {
    let text = "(fun (add a b) (+ a b)) (fun (twice x) (add (print x) (print x))) (let ((p 1)) (let ((q 2) (r 3)) (+ (twice (add p q)) (add (twice r) (print (add q r))))))";
    let (outcome, printed) = eval(text, FALSE);
    assert_eq!(outcome, Outcome::Returned(num(6 + 6 + 5)));
    assert_eq!(printed, vec![num(3), num(3), num(3), num(3), num(5)]);
}

#[test]
fn recursion_with_parameters_assigned() {
    let text = "(fun (fact n acc) (if (= n 0) acc (block (set! acc (* acc n)) (fact (sub1 n) acc)))) (fact input 1)";
    assert_eq!(eval(text, num(10)).0, Outcome::Returned(num(3628800)));
}

#[test]
fn loop_counts_with_break_value() {
    let text = "(let ((i 0) (sum 0)) (loop (if (> i 10) (break sum) (block (set! sum (+ sum i)) (set! i (add1 i))))))";
    assert_eq!(eval(text, FALSE).0, Outcome::Returned(num(55)));
}

#[test]
fn nested_loops_break_to_their_own_end() {
    let text = "(let ((i 0) (n 0)) (loop (if (= i 3) (break n) (block (let ((j 0)) (loop (if (= j 4) (break j) (block (set! n (add1 n)) (set! j (add1 j)))))) (set! i (add1 i))))))";
    assert_eq!(eval(text, FALSE).0, Outcome::Returned(num(12)));
}

#[test]
fn input_is_returned_as_it_came() {
    assert_eq!(eval("input", TRUE).0, Outcome::Returned(TRUE));
    assert_eq!(eval("input", num(123)).0, Outcome::Returned(num(123)));
}

#[test]
fn later_binding_sees_earlier_one() {
    assert_eq!(
        eval("(let ((x 5) (y (* x x))) (+ y x))", FALSE).0,
        Outcome::Returned(num(30))
    );
}

#[test]
fn set_returns_the_stored_value() {
    assert_eq!(eval("(let ((x 1)) (+ (set! x 41) x))", FALSE).0, Outcome::Returned(num(82)));
}

#[test]
fn input_read_behind_a_wide_comparison_reports_overflow() {
    // The comparison of two numbers that lie further apart than a word is
    // wide leaves the overflow flag set, and the overflow check behind the
    // copy of `input` reads that flag.
    let text = "(block (= 4611686018427387903 -4611686018427387904) input)";
    assert_eq!(eval(text, num(5)).0, Outcome::Failed(5));
    let text = "(block (= 1 2) input)";
    assert_eq!(eval(text, num(5)).0, Outcome::Returned(num(5)));
}
