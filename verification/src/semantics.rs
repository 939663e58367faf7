//! What an expression means: the value it has in a scope of bindings, or the
//! fault that stops the program. This is the reference that the emitted
//! code is held against.

use vstd::prelude::*;
use crate::types::{ExprView, Op1, Op2, GREATEST_VAL, LEAST_VAL};

verus! {

/// A value of the language.
pub enum Value {
    Num(int),
    Bool(bool),
}

/// A fault that stops a running program.
pub enum Fault {
    /// The result of an arithmetic operation is no number of the language.
    Overflow,
    /// An operand has the wrong type.
    InvalidArgument,
}

/// Whether `n` is a number of the language.
pub open spec fn in_range(n: int) -> bool {
    LEAST_VAL <= n <= GREATEST_VAL
}

/// Whether a value is one that a program can hold.
pub open spec fn legal(v: Value) -> bool {
    v matches Value::Num(n) ==> in_range(n)
}

/// The word that stands for a value: twice the number, with the lowest bit
/// clear; 3 for true and 1 for false, with the lowest bit set.
pub open spec fn tagged(v: Value) -> int {
    match v {
        Value::Num(n) => 2 * n,
        Value::Bool(true) => 3,
        Value::Bool(false) => 1,
    }
}

/// The bindings in force, the innermost last.
pub type Scope = Seq<(Seq<char>, Value)>;

/// The place of the innermost binding of `x`, or -1 if nothing binds it.
pub open spec fn nearest(scope: Scope, x: Seq<char>) -> int
    decreases scope.len(),
{
    if scope.len() == 0 {
        -1
    } else if scope.last().0 == x {
        scope.len() - 1
    } else {
        nearest(scope.drop_last(), x)
    }
}

/// The value of the innermost binding of `x`.
pub open spec fn value_of(scope: Scope, x: Seq<char>) -> Value {
    scope[nearest(scope, x)].1
}

/// The scope in which the innermost binding of `x` has the value `v`.
pub open spec fn assign(scope: Scope, x: Seq<char>, v: Value) -> Scope {
    scope.update(nearest(scope, x), (x, v))
}

/// What evaluating gives: a value and the scope as assignments have left
/// it, or a fault.
pub type Evaluated = Result<(Value, Scope), Fault>;

/// The sum, difference or product of two numbers, or the overflow fault if
/// it is no number of the language.
pub open spec fn number_or_overflow(n: int, scope: Scope) -> Evaluated {
    if in_range(n) {
        Ok((Value::Num(n), scope))
    } else {
        Err(Fault::Overflow)
    }
}

/// The value of the expression `e` in `scope`, where `input` is the value of
/// `input`.
///
/// An identifier has the value of its innermost binding. A `let` evaluates
/// its bindings in order, each in the scope that the earlier ones have
/// extended, then its body; its bindings are gone when it is left. A
/// conditional evaluates its third part if the condition is false, and its
/// second part for any other value. Arithmetic and ordered comparisons ask
/// for numbers, and arithmetic faults if the result is none of the language.
/// `-` and `=` evaluate their second operand first; the other operators
/// their first. `=` asks for two values of one type. `print` has the value
/// of its operand. Loops, `break` and calls are given no meaning here.
pub open spec fn eval(e: ExprView, scope: Scope, input: Value) -> Evaluated
    decreases e, 0nat,
{
    match e {
        ExprView::Number(n) => Ok((Value::Num(n), scope)),
        ExprView::Boolean(b) => Ok((Value::Bool(b), scope)),
        ExprView::Id(x) => {
            if x == "input"@ {
                Ok((input, scope))
            } else {
                Ok((value_of(scope, x), scope))
            }
        },
        ExprView::Let(bs, body) => {
            match eval_bindings(bs, bs.len() as int, scope, input) {
                Err(fault) => Err(fault),
                Ok(inner) => match eval(*body, inner, input) {
                    Err(fault) => Err(fault),
                    Ok((v, after)) => Ok((v, after.take(after.len() - bs.len()))),
                },
            }
        },
        ExprView::SetVar(x, a) => {
            match eval(*a, scope, input) {
                Err(fault) => Err(fault),
                Ok((v, after)) => Ok((v, assign(after, x, v))),
            }
        },
        ExprView::Block(es) => eval_block(es, es.len() as int, scope, input),
        ExprView::UnOp(op, a) => {
            match eval(*a, scope, input) {
                Err(fault) => Err(fault),
                Ok((v, after)) => match op {
                    Op1::Add1 => match v {
                        Value::Num(n) => number_or_overflow(n + 1, after),
                        _ => Err(Fault::InvalidArgument),
                    },
                    Op1::Sub1 => match v {
                        Value::Num(n) => number_or_overflow(n - 1, after),
                        _ => Err(Fault::InvalidArgument),
                    },
                    Op1::IsNum => Ok((Value::Bool(v is Num), after)),
                    Op1::IsBool => Ok((Value::Bool(v is Bool), after)),
                    Op1::Print => Ok((v, after)),
                },
            }
        },
        ExprView::BinOp(op, a, b) => {
            let first = if op == Op2::Minus || op == Op2::Equal {
                *b
            } else {
                *a
            };
            let second = if op == Op2::Minus || op == Op2::Equal {
                *a
            } else {
                *b
            };
            match eval(first, scope, input) {
                Err(fault) => Err(fault),
                Ok((v1, mid)) => {
                    if op != Op2::Equal && v1 is Bool
                        && (op == Op2::Plus || op == Op2::Minus || op == Op2::Times) {
                        Err(Fault::InvalidArgument)
                    } else {
                        match eval(second, mid, input) {
                            Err(fault) => Err(fault),
                            Ok((v2, after)) => apply(op, v1, v2, after),
                        }
                    }
                },
            }
        },
        ExprView::If(c, t, f) => {
            match eval(*c, scope, input) {
                Err(fault) => Err(fault),
                Ok((v, mid)) => {
                    if v == Value::Bool(false) {
                        eval(*f, mid, input)
                    } else {
                        eval(*t, mid, input)
                    }
                },
            }
        },
        _ => Ok((Value::Bool(false), scope)),
    }
}

/// The result of a binary operator on the value `v1` of the operand that
/// was evaluated first and the value `v2` of the other.
pub open spec fn apply(op: Op2, v1: Value, v2: Value, scope: Scope) -> Evaluated {
    match op {
        Op2::Equal => {
            if (v1 is Num) != (v2 is Num) {
                Err(Fault::InvalidArgument)
            } else {
                Ok((Value::Bool(v1 == v2), scope))
            }
        },
        _ => match (v1, v2) {
            (Value::Num(n1), Value::Num(n2)) => match op {
                Op2::Plus => number_or_overflow(n1 + n2, scope),
                Op2::Minus => number_or_overflow(n2 - n1, scope),
                Op2::Times => number_or_overflow(n1 * n2, scope),
                Op2::Greater => Ok((Value::Bool(n1 > n2), scope)),
                Op2::GreaterEqual => Ok((Value::Bool(n1 >= n2), scope)),
                Op2::Less => Ok((Value::Bool(n1 < n2), scope)),
                _ => Ok((Value::Bool(n1 <= n2), scope)),
            },
            _ => Err(Fault::InvalidArgument),
        },
    }
}

/// The value of the last of the first `n` expressions of a block, evaluated
/// in order.
pub open spec fn eval_block(es: Seq<ExprView>, n: int, scope: Scope, input: Value) -> Evaluated
    decreases es, n,
{
    if n <= 0 || n > es.len() {
        Ok((Value::Bool(false), scope))
    } else if n == 1 {
        eval(es[0], scope, input)
    } else {
        match eval_block(es, n - 1, scope, input) {
            Err(fault) => Err(fault),
            Ok((_, mid)) => eval(es[n - 1], mid, input),
        }
    }
}

/// The scope after the first `n` bindings of a `let`: each right-hand side
/// is evaluated in the scope that the earlier bindings have extended, and
/// its value is bound innermost.
pub open spec fn eval_bindings(
    bs: Seq<(Seq<char>, ExprView)>,
    n: int,
    scope: Scope,
    input: Value,
) -> Result<Scope, Fault>
    decreases bs, n,
{
    if n <= 0 || n > bs.len() {
        Ok(scope)
    } else {
        match eval_bindings(bs, n - 1, scope, input) {
            Err(fault) => Err(fault),
            Ok(mid) => match eval(bs[n - 1].1, mid, input) {
                Err(fault) => Err(fault),
                Ok((v, after)) => Ok(after.push((bs[n - 1].0, v))),
            },
        }
    }
}

/// The values of the first `n` arguments of a call, evaluated in order,
/// and the scope as their evaluation has left it.
pub open spec fn eval_args(args: Seq<ExprView>, n: int, scope: Scope, input: Value) -> Result<
    (Seq<Value>, Scope),
    Fault,
>
    decreases n,
{
    if n <= 0 || n > args.len() {
        Ok((Seq::empty(), scope))
    } else {
        match eval_args(args, n - 1, scope, input) {
            Err(fault) => Err(fault),
            Ok((values, mid)) => match eval(args[n - 1], mid, input) {
                Err(fault) => Err(fault),
                Ok((v, after)) => Ok((values.push(v), after)),
            },
        }
    }
}

/// How an expression may use `input`, and what it may leave in the
/// overflow flag.
pub enum Mode {
    /// The expression does not read `input`.
    Closed,
    /// The expression may read `input`. It holds `=` and ordered
    /// comparisons only as conditions of conditionals, whose conditions are
    /// all of the kind below.
    Clean,
    /// The expression is a condition: a boolean literal, `isnum`, `isbool`,
    /// `=` or an ordered comparison, with operands that may read `input`.
    Cond,
}

/// The mode of the operands of an operator in the mode `mode`.
pub open spec fn operand_mode(mode: Mode) -> Mode {
    if mode == Mode::Cond {
        Mode::Clean
    } else {
        mode
    }
}

/// The mode of the condition of a conditional in the mode `mode`.
pub open spec fn condition_mode(mode: Mode) -> Mode {
    if mode == Mode::Clean {
        Mode::Cond
    } else {
        mode
    }
}

/// Whether `e` is built without `loop`, `break` and calls, with number
/// literals of the language and no empty block, and uses `input` as the
/// mode says.
pub open spec fn simple(e: ExprView, mode: Mode) -> bool
    decreases e, 0nat,
{
    match e {
        ExprView::Number(n) => mode != Mode::Cond && in_range(n),
        ExprView::Boolean(_) => true,
        ExprView::Id(x) => mode != Mode::Cond && (mode == Mode::Clean || x != "input"@),
        ExprView::Let(bs, body) => mode != Mode::Cond && simple_bindings(
            bs,
            bs.len() as int,
            mode,
        ) && simple(*body, mode),
        ExprView::SetVar(_, a) => mode != Mode::Cond && simple(*a, mode),
        ExprView::Block(es) => mode != Mode::Cond && es.len() > 0 && simple_all(
            es,
            es.len() as int,
            mode,
        ),
        ExprView::UnOp(op, a) => {
            if op == Op1::IsNum || op == Op1::IsBool {
                simple(*a, operand_mode(mode))
            } else {
                mode != Mode::Cond && simple(*a, mode)
            }
        },
        ExprView::BinOp(op, a, b) => {
            if op == Op2::Plus || op == Op2::Minus || op == Op2::Times {
                mode != Mode::Cond && simple(*a, mode) && simple(*b, mode)
            } else {
                mode != Mode::Clean && simple(*a, operand_mode(mode)) && simple(
                    *b,
                    operand_mode(mode),
                )
            }
        },
        ExprView::If(c, t, f) => mode != Mode::Cond && simple(*c, condition_mode(mode)) && simple(
            *t,
            mode,
        ) && simple(*f, mode),
        _ => false,
    }
}

/// Whether the first `n` expressions of a list are simple.
pub open spec fn simple_all(es: Seq<ExprView>, n: int, mode: Mode) -> bool
    decreases es, n,
{
    if n <= 0 || n > es.len() {
        true
    } else {
        simple_all(es, n - 1, mode) && simple(es[n - 1], mode)
    }
}

/// Whether the right-hand sides of the first `n` bindings are simple.
pub open spec fn simple_bindings(bs: Seq<(Seq<char>, ExprView)>, n: int, mode: Mode) -> bool
    decreases bs, n,
{
    if n <= 0 || n > bs.len() {
        true
    } else {
        simple_bindings(bs, n - 1, mode) && simple(bs[n - 1].1, mode)
    }
}

/// A condition has a boolean for its value.
pub proof fn lemma_condition_is_boolean(e: ExprView, scope: Scope, input: Value)
    requires
        simple(e, Mode::Cond),
    ensures
        eval(e, scope, input) matches Ok((v, _)) ==> v is Bool,
{
}

} // verus!
