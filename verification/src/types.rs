//! The data the compiler works on: the syntax tree of a program, the abstract
//! instructions it is compiled to, and the mathematical view of each.

use vstd::prelude::*;
use crate::env::name_members;

verus! {

/// The tagged word that stands for `true`.
pub const TRUE_VAL: u64 = 3;

/// The tagged word that stands for `false`.
pub const FALSE_VAL: u64 = 1;

/// The code handed to the runtime when an arithmetic result does not fit.
pub const OVERFLOW_ERROR_CODE: u64 = 5;

/// The code handed to the runtime when an operand has the wrong type tag.
pub const INVALID_ARGUMENT_ERROR_CODE: u64 = 7;

/// The greatest number a program may hold: 2^62 - 1.
pub const GREATEST_VAL: i64 = 4611686018427387903;

/// The least number a program may hold: -2^62.
pub const LEAST_VAL: i64 = -4611686018427387904;

/// A machine register.
#[derive(Debug, Clone, Copy, PartialEq, Eq, Structural)]
pub enum Reg {
    RAX,
    RSP,
    RDI,
    RBX,
}

/// An operand of an instruction.
#[derive(Debug, PartialEq, Eq)]
pub enum Val {
    Reg(Reg),
    Imm(u64),
    RegOffset(Reg, i64),
    Label(String),
}

/// An operand as a mathematical value: a label is its sequence of characters.
pub enum ValView {
    Reg(Reg),
    Imm(int),
    RegOffset(Reg, int),
    Label(Seq<char>),
}

impl View for Val {
    type V = ValView;

    open spec fn view(&self) -> ValView {
        match self {
            Val::Reg(r) => ValView::Reg(*r),
            Val::Imm(n) => ValView::Imm(*n as int),
            Val::RegOffset(r, n) => ValView::RegOffset(*r, *n as int),
            Val::Label(s) => ValView::Label(s@),
        }
    }
}

/// An abstract instruction.
#[derive(Debug, PartialEq, Eq)]
pub enum Instr {
    IMov(Val, Val),
    IAdd(Val, Val),
    ISub(Val, Val),
    IMul(Val, Val),
    Shr(Val, Val),
    Shl(Val, Val),
    Jmp(Val),
    Cmp(Val, Val),
    JEqual(Val),
    JNotEqual(Val),
    JGreater(Val),
    JGreaterEqual(Val),
    JLess(Val),
    JLessEqual(Val),
    Test(Val, Val),
    Label(Val),
    Xor(Val, Val),
    Cmove(Val, Val),
    OverFlow(),
    Call(Val),
    Push(Val),
    Pop(Val),
    Ret(),
}

/// An instruction as a mathematical value.
pub enum InstrView {
    IMov(ValView, ValView),
    IAdd(ValView, ValView),
    ISub(ValView, ValView),
    IMul(ValView, ValView),
    Shr(ValView, ValView),
    Shl(ValView, ValView),
    Jmp(ValView),
    Cmp(ValView, ValView),
    JEqual(ValView),
    JNotEqual(ValView),
    JGreater(ValView),
    JGreaterEqual(ValView),
    JLess(ValView),
    JLessEqual(ValView),
    Test(ValView, ValView),
    Label(ValView),
    Xor(ValView, ValView),
    Cmove(ValView, ValView),
    OverFlow(),
    Call(ValView),
    Push(ValView),
    Pop(ValView),
    Ret(),
}

impl View for Instr {
    type V = InstrView;

    open spec fn view(&self) -> InstrView {
        match self {
            Instr::IMov(a, b) => InstrView::IMov(a@, b@),
            Instr::IAdd(a, b) => InstrView::IAdd(a@, b@),
            Instr::ISub(a, b) => InstrView::ISub(a@, b@),
            Instr::IMul(a, b) => InstrView::IMul(a@, b@),
            Instr::Shr(a, b) => InstrView::Shr(a@, b@),
            Instr::Shl(a, b) => InstrView::Shl(a@, b@),
            Instr::Jmp(a) => InstrView::Jmp(a@),
            Instr::Cmp(a, b) => InstrView::Cmp(a@, b@),
            Instr::JEqual(a) => InstrView::JEqual(a@),
            Instr::JNotEqual(a) => InstrView::JNotEqual(a@),
            Instr::JGreater(a) => InstrView::JGreater(a@),
            Instr::JGreaterEqual(a) => InstrView::JGreaterEqual(a@),
            Instr::JLess(a) => InstrView::JLess(a@),
            Instr::JLessEqual(a) => InstrView::JLessEqual(a@),
            Instr::Test(a, b) => InstrView::Test(a@, b@),
            Instr::Label(a) => InstrView::Label(a@),
            Instr::Xor(a, b) => InstrView::Xor(a@, b@),
            Instr::Cmove(a, b) => InstrView::Cmove(a@, b@),
            Instr::OverFlow() => InstrView::OverFlow(),
            Instr::Call(a) => InstrView::Call(a@),
            Instr::Push(a) => InstrView::Push(a@),
            Instr::Pop(a) => InstrView::Pop(a@),
            Instr::Ret() => InstrView::Ret(),
        }
    }
}

/// The instruction list that a vector of instructions stands for.
pub open spec fn code_of(instrs: Seq<Instr>) -> Seq<InstrView> {
    Seq::new(instrs.len(), |i: int| instrs[i]@)
}

/// A unary operator.
#[derive(Debug, Clone, Copy, PartialEq, Eq, Structural)]
pub enum Op1 {
    Add1,
    Sub1,
    IsNum,
    IsBool,
    Print,
}

/// A binary operator.
#[derive(Debug, Clone, Copy, PartialEq, Eq, Structural)]
pub enum Op2 {
    Plus,
    Minus,
    Times,
    Equal,
    Greater,
    GreaterEqual,
    Less,
    LessEqual,
}

/// An expression of the source language.
#[derive(Debug, PartialEq, Eq)]
pub enum Expr {
    Number(i64),
    Boolean(bool),
    Id(String),
    Let(Vec<(String, Expr)>, Box<Expr>),
    UnOp(Op1, Box<Expr>),
    BinOp(Op2, Box<Expr>, Box<Expr>),
    If(Box<Expr>, Box<Expr>, Box<Expr>),
    Loop(Box<Expr>),
    Break(Box<Expr>),
    SetVar(String, Box<Expr>),
    Block(Vec<Expr>),
    Call(String, Vec<Expr>),
}

/// An expression as a mathematical value: names are sequences of characters,
/// lists are sequences.
pub enum ExprView {
    Number(int),
    Boolean(bool),
    Id(Seq<char>),
    Let(Seq<(Seq<char>, ExprView)>, Box<ExprView>),
    UnOp(Op1, Box<ExprView>),
    BinOp(Op2, Box<ExprView>, Box<ExprView>),
    If(Box<ExprView>, Box<ExprView>, Box<ExprView>),
    Loop(Box<ExprView>),
    Break(Box<ExprView>),
    SetVar(Seq<char>, Box<ExprView>),
    Block(Seq<ExprView>),
    Call(Seq<char>, Seq<ExprView>),
}

/// The mathematical value of an expression.
pub open spec fn expr_view(e: Expr) -> ExprView
    decreases e,
{
    match e {
        Expr::Number(n) => ExprView::Number(n as int),
        Expr::Boolean(b) => ExprView::Boolean(b),
        Expr::Id(x) => ExprView::Id(x@),
        Expr::Let(bs, body) => ExprView::Let(bindings_view(bs), Box::new(expr_view(*body))),
        Expr::UnOp(op, a) => ExprView::UnOp(op, Box::new(expr_view(*a))),
        Expr::BinOp(op, a, b) => ExprView::BinOp(
            op,
            Box::new(expr_view(*a)),
            Box::new(expr_view(*b)),
        ),
        Expr::If(c, t, f) => ExprView::If(
            Box::new(expr_view(*c)),
            Box::new(expr_view(*t)),
            Box::new(expr_view(*f)),
        ),
        Expr::Loop(a) => ExprView::Loop(Box::new(expr_view(*a))),
        Expr::Break(a) => ExprView::Break(Box::new(expr_view(*a))),
        Expr::SetVar(x, a) => ExprView::SetVar(x@, Box::new(expr_view(*a))),
        Expr::Block(es) => ExprView::Block(exprs_view(es)),
        Expr::Call(f, args) => ExprView::Call(f@, exprs_view(args)),
    }
}

/// The mathematical values of a list of expressions, in order.
pub open spec fn exprs_view(es: Vec<Expr>) -> Seq<ExprView>
    decreases es,
{
    Seq::new(
        es.len() as nat,
        |i: int|
            if 0 <= i < es.len() {
                expr_view(es[i])
            } else {
                ExprView::Boolean(false)
            },
    )
}

/// The names and right-hand sides of the bindings of a `let`, in order, as
/// mathematical values.
pub open spec fn bindings_view(bs: Vec<(String, Expr)>) -> Seq<(Seq<char>, ExprView)>
    decreases bs,
{
    Seq::new(
        bs.len() as nat,
        |i: int|
            if 0 <= i < bs.len() {
                (bs[i].0@, expr_view(bs[i].1))
            } else {
                (Seq::empty(), ExprView::Boolean(false))
            },
    )
}

impl View for Expr {
    type V = ExprView;

    open spec fn view(&self) -> ExprView {
        expr_view(*self)
    }
}

/// A function definition: its name, its parameters, its body.
#[derive(Debug, PartialEq, Eq)]
pub enum Definition {
    Fun(String, Vec<String>, Expr),
}

/// A function definition as a mathematical value.
pub enum DefinitionView {
    Fun(Seq<char>, Seq<Seq<char>>, ExprView),
}

/// The names in a vector of strings, in order.
pub open spec fn names_of(names: Seq<String>) -> Seq<Seq<char>> {
    Seq::new(names.len(), |i: int| names[i]@)
}

impl View for Definition {
    type V = DefinitionView;

    open spec fn view(&self) -> DefinitionView {
        match self {
            Definition::Fun(name, params, body) => DefinitionView::Fun(
                name@,
                names_of(params@),
                body@,
            ),
        }
    }
}

/// The definitions in a vector, in order, as mathematical values.
pub open spec fn defs_of(defs: Seq<Definition>) -> Seq<DefinitionView> {
    Seq::new(defs.len(), |i: int| defs[i]@)
}

/// A program: its function definitions in order, its main expression, and
/// the names of the functions it declares.
#[derive(Debug)]
pub struct Program {
    pub defs: Vec<Definition>,
    pub main: Expr,
    pub func_list: im::HashSet<String>,
}

/// A program as a mathematical value.
pub struct ProgramView {
    pub defs: Seq<DefinitionView>,
    pub main: ExprView,
    pub func_list: Set<Seq<char>>,
}

impl View for Program {
    type V = ProgramView;

    open spec fn view(&self) -> ProgramView {
        ProgramView {
            defs: defs_of(self.defs@),
            main: self.main@,
            func_list: name_members(self.func_list),
        }
    }
}

} // verus!
