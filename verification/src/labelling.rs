//! Where the labels of the emitted code come from: the code of an
//! expression defines only labels of conditionals, and only with numbers
//! that the counter took while the expression was compiled.

use vstd::prelude::*;
use crate::codegen::{
    imm, label, label_name, number_check_code, rax, same_type_code, slot, stack, tag_test_code,
};
use crate::labels::{lemma_label_is_no_trap, lemma_labels_differ};
use crate::layout::{compile_args, compile_bindings, compile_block, compile_expr, print_code};
use crate::machine::defines;
use crate::semantics::{condition_mode, operand_mode, simple, simple_all, simple_bindings, Mode};
use crate::soundness::{
    arith_finish, arith_instr, arith_tail, branch_code, choose_equal_code, equal_tail,
    first_operand, guard_code, lemma_operand_codes, misses, operator_code, ordered, ordered_tail,
    safe, second_operand, select_code,
};
use crate::types::{ExprView, InstrView, Op1, Op2, FALSE_VAL};

verus! {

/// Whether an instruction defines a label of a conditional with a number
/// from `lo` up to, but not including, `hi`.
pub open spec fn branch_label(i: InstrView, lo: int, hi: int) -> bool {
    exists|k: int|
        lo <= k < hi && (defines(i, #[trigger] label_name("if"@, k)) || defines(
            i,
            label_name("endif"@, k),
        ))
}

/// Whether every label that a list of instructions defines is a label of a
/// conditional with a number from `lo` up to, but not including, `hi`.
pub open spec fn labels_in(code: Seq<InstrView>, lo: int, hi: int) -> bool {
    forall|j: int|
        0 <= j < code.len() && (#[trigger] code[j]) is Label ==> branch_label(code[j], lo, hi)
}

/// An instruction that defines a label of a conditional with the number
/// `k` defines one with a number in every range that holds `k`.
pub proof fn lemma_branch_label(i: InstrView, k: int, lo: int, hi: int)
    requires
        lo <= k < hi,
        defines(i, label_name("if"@, k)) || defines(i, label_name("endif"@, k)),
    ensures
        branch_label(i, lo, hi),
{
    let name = label_name("if"@, k);
    assert(lo <= k < hi && (defines(i, name) || defines(i, label_name("endif"@, k))));
}

/// Labels with numbers in a range have numbers in every wider range.
pub proof fn lemma_labels_widen(code: Seq<InstrView>, lo: int, hi: int, lower: int, higher: int)
    requires
        labels_in(code, lo, hi),
        lower <= lo,
        hi <= higher,
    ensures
        labels_in(code, lower, higher),
{
    assert forall|j: int| 0 <= j < code.len() && (#[trigger] code[j]) is Label implies branch_label(
        code[j],
        lower,
        higher,
    ) by {
        let k = choose|k: int|
            lo <= k < hi && (defines(code[j], #[trigger] label_name("if"@, k)) || defines(
                code[j],
                label_name("endif"@, k),
            ));
        assert(lower <= k < higher && (defines(code[j], label_name("if"@, k)) || defines(
            code[j],
            label_name("endif"@, k),
        )));
    }
}

/// Two lists with labels in a range make one with labels in the range.
pub proof fn lemma_labels_concat(a: Seq<InstrView>, b: Seq<InstrView>, lo: int, hi: int)
    requires
        labels_in(a, lo, hi),
        labels_in(b, lo, hi),
    ensures
        labels_in(a + b, lo, hi),
{
    assert forall|j: int| 0 <= j < (a + b).len() && (#[trigger] (a + b)[j]) is Label implies branch_label(
        (a + b)[j],
        lo,
        hi,
    ) by {
        if j < a.len() {
            assert((a + b)[j] == a[j]);
        } else {
            assert((a + b)[j] == b[j - a.len()]);
        }
    }
}

/// A list with labels in a range of numbers that are not negative defines
/// neither trampoline.
pub proof fn lemma_labels_safe(code: Seq<InstrView>, lo: int, hi: int)
    requires
        labels_in(code, lo, hi),
        0 <= lo,
    ensures
        safe(code),
{
    assert forall|j: int| 0 <= j < code.len() implies !defines(
        #[trigger] code[j],
        "invalid_arg"@,
    ) && !defines(code[j], "overflow"@) by {
        if code[j] is Label {
            let k = choose|k: int|
                lo <= k < hi && (defines(code[j], #[trigger] label_name("if"@, k)) || defines(
                    code[j],
                    label_name("endif"@, k),
                ));
            lemma_label_is_no_trap("if"@, k);
            lemma_label_is_no_trap("endif"@, k);
        }
    }
}

/// A list with labels in a range does not define a label of a conditional
/// with a number outside the range.
pub proof fn lemma_labels_miss(code: Seq<InstrView>, lo: int, hi: int, prefix: Seq<char>, n: int)
    requires
        labels_in(code, lo, hi),
        0 <= lo,
        0 <= n,
        prefix == "if"@ || prefix == "endif"@,
        n < lo || hi <= n,
    ensures
        misses(code, label_name(prefix, n)),
{
    assert forall|j: int| 0 <= j < code.len() implies !defines(
        #[trigger] code[j],
        label_name(prefix, n),
    ) by {
        if code[j] is Label {
            let k = choose|k: int|
                lo <= k < hi && (defines(code[j], #[trigger] label_name("if"@, k)) || defines(
                    code[j],
                    label_name("endif"@, k),
                ));
            lemma_labels_differ("if"@, k, prefix, n);
            lemma_labels_differ("endif"@, k, prefix, n);
        }
    }
}

/// The code of `isnum` or `isbool` behind its operand defines the two
/// labels that the counter value `l` gives.
pub proof fn lemma_tag_test_labels(l: int, on_set: bool)
    ensures
        labels_in(tag_test_code(l, on_set), l, l + 2),
{
    let code = tag_test_code(l, on_set);
    assert forall|j: int| 0 <= j < code.len() && (#[trigger] code[j]) is Label implies branch_label(
        code[j],
        l,
        l + 2,
    ) by {
        if j == 4 {
            lemma_branch_label(code[j], l, l, l + 2);
        } else {
            assert(j == 6);
            lemma_branch_label(code[j], l + 1, l, l + 2);
        }
    }
}

/// The last part of the code of an ordered comparison defines the two
/// labels that the counter value `l` gives.
pub proof fn lemma_select_labels(op: Op2, l: int)
    ensures
        labels_in(select_code(op, l), l, l + 2),
{
    let code = select_code(op, l);
    assert forall|j: int| 0 <= j < code.len() && (#[trigger] code[j]) is Label implies branch_label(
        code[j],
        l,
        l + 2,
    ) by {
        if j == 3 {
            lemma_branch_label(code[j], l, l, l + 2);
        } else {
            assert(j == 5);
            lemma_branch_label(code[j], l + 1, l, l + 2);
        }
    }
}

/// The code of a binary operator has its labels in a range that holds the
/// labels of the codes of its operands and, for an ordered comparison, the
/// two labels of its own.
pub proof fn lemma_operator_labels(
    op: Op2,
    c1: Seq<InstrView>,
    c2: Seq<InstrView>,
    si: int,
    l: int,
    lo: int,
    hi: int,
)
    requires
        labels_in(c1, lo, hi),
        labels_in(c2, lo, hi),
        ordered(op) ==> lo <= l && l + 2 <= hi,
    ensures
        labels_in(operator_code(op, c1, c2, si, l), lo, hi),
{
    let save = seq![InstrView::IMov(slot(si), rax())];
    let same = same_type_code(si * 8);
    let check = number_check_code();
    if op == Op2::Equal {
        lemma_labels_concat(c1, save, lo, hi);
        lemma_labels_concat(c1 + save, c2, lo, hi);
        lemma_labels_concat(same, choose_equal_code(si), lo, hi);
        lemma_labels_concat(c1 + save + c2, equal_tail(si), lo, hi);
    } else if ordered(op) {
        let cmp = seq![InstrView::Cmp(slot(si), rax())];
        lemma_labels_concat(c1, save, lo, hi);
        lemma_labels_concat(c1 + save, c2, lo, hi);
        lemma_select_labels(op, l);
        lemma_labels_widen(select_code(op, l), l, l + 2, lo, hi);
        lemma_labels_concat(same, check, lo, hi);
        lemma_labels_concat(same + check, cmp, lo, hi);
        lemma_labels_concat(same + check + cmp, select_code(op, l), lo, hi);
        lemma_labels_concat(c1 + save + c2, ordered_tail(op, l, si), lo, hi);
    } else {
        let arith = seq![arith_instr(op, si)];
        let tail = arith_tail(op, si);
        lemma_labels_concat(check, save, lo, hi);
        lemma_labels_concat(check, arith, lo, hi);
        lemma_labels_concat(check + arith, tail, lo, hi);
        lemma_labels_concat(c1, guard_code(si), lo, hi);
        lemma_labels_concat(c1 + guard_code(si), c2, lo, hi);
        lemma_labels_concat(c1 + guard_code(si) + c2, arith_finish(op, si), lo, hi);
    }
}

/// The code of a simple expression defines only labels of conditionals with
/// numbers that the counter took while it was compiled; the counter does
/// not go down.
pub proof fn lemma_labels(
    e: ExprView,
    si: int,
    env: Map<Seq<char>, i64>,
    l: int,
    brk: Seq<char>,
    funcs: Set<Seq<char>>,
    mode: Mode,
)
    requires
        simple(e, mode),
        compile_expr(e, si, env, l, brk, funcs) is Ok,
    ensures
        l <= compile_expr(e, si, env, l, brk, funcs)->Ok_0.1,
        labels_in(
            compile_expr(e, si, env, l, brk, funcs)->Ok_0.0,
            l,
            compile_expr(e, si, env, l, brk, funcs)->Ok_0.1,
        ),
    decreases e, 1nat,
{
    match e {
        ExprView::BinOp(_, _, _) => lemma_labels_binop(e, si, env, l, brk, funcs, mode),
        ExprView::UnOp(_, _) => lemma_labels_unop(e, si, env, l, brk, funcs, mode),
        ExprView::If(_, _, _) => lemma_labels_if(e, si, env, l, brk, funcs, mode),
        ExprView::SetVar(x, a) => {
            lemma_labels(*a, si, env, l, brk, funcs, mode);
            let (ca, l1) = compile_expr(*a, si, env, l, brk, funcs)->Ok_0;
            lemma_labels_concat(ca, seq![InstrView::IMov(stack(env[x] as int), rax())], l, l1);
        },
        ExprView::Block(es) => {
            lemma_labels_block(es, es.len() as int, si, env, l, brk, funcs, mode);
        },
        ExprView::Let(bs, body) => {
            let n = bs.len() as int;
            lemma_labels_bindings(bs, n, si, env, l, brk, funcs, mode);
            let (c1, l1, inner) = compile_bindings(bs, n, si, env, l, brk, funcs)->Ok_0;
            lemma_labels(*body, si + n + 1, inner, l1, brk, funcs, mode);
            let (c2, l2) = compile_expr(*body, si + n + 1, inner, l1, brk, funcs)->Ok_0;
            lemma_labels_widen(c1, l, l1, l, l2);
            lemma_labels_widen(c2, l1, l2, l, l2);
            lemma_labels_concat(c1, c2, l, l2);
        },
        _ => {},
    }
}

/// The labels of the code of a unary operator on a simple operand.
pub proof fn lemma_labels_unop(
    e: ExprView,
    si: int,
    env: Map<Seq<char>, i64>,
    l: int,
    brk: Seq<char>,
    funcs: Set<Seq<char>>,
    mode: Mode,
)
    requires
        e is UnOp,
        simple(e, mode),
        compile_expr(e, si, env, l, brk, funcs) is Ok,
    ensures
        l <= compile_expr(e, si, env, l, brk, funcs)->Ok_0.1,
        labels_in(
            compile_expr(e, si, env, l, brk, funcs)->Ok_0.0,
            l,
            compile_expr(e, si, env, l, brk, funcs)->Ok_0.1,
        ),
    decreases e, 0nat,
{
    let op = e->UnOp_0;
    let a = *e->UnOp_1;
    lemma_labels(a, si, env, l, brk, funcs, operand_mode(mode));
    let (ca, l1) = compile_expr(a, si, env, l, brk, funcs)->Ok_0;
    if op == Op1::IsNum || op == Op1::IsBool {
        let test = tag_test_code(l1, op == Op1::IsBool);
        lemma_tag_test_labels(l1, op == Op1::IsBool);
        lemma_labels_widen(ca, l, l1, l, l1 + 2);
        lemma_labels_widen(test, l1, l1 + 2, l, l1 + 2);
        lemma_labels_concat(ca, test, l, l1 + 2);
    } else if op == Op1::Print {
        lemma_labels_concat(ca, print_code(si), l, l1);
    } else {
        let arith = if op == Op1::Add1 {
            InstrView::IAdd(rax(), imm(2))
        } else {
            InstrView::ISub(rax(), imm(2))
        };
        lemma_labels_concat(ca, number_check_code(), l, l1);
        lemma_labels_concat(ca + number_check_code(), seq![arith], l, l1);
        lemma_labels_concat(
            ca + number_check_code() + seq![arith],
            seq![InstrView::OverFlow()],
            l,
            l1,
        );
    }
}

/// The labels of the code of a binary operator on simple operands.
pub proof fn lemma_labels_binop(
    e: ExprView,
    si: int,
    env: Map<Seq<char>, i64>,
    l: int,
    brk: Seq<char>,
    funcs: Set<Seq<char>>,
    mode: Mode,
)
    requires
        e is BinOp,
        simple(e, mode),
        compile_expr(e, si, env, l, brk, funcs) is Ok,
    ensures
        l <= compile_expr(e, si, env, l, brk, funcs)->Ok_0.1,
        labels_in(
            compile_expr(e, si, env, l, brk, funcs)->Ok_0.0,
            l,
            compile_expr(e, si, env, l, brk, funcs)->Ok_0.1,
        ),
    decreases e, 0nat,
{
    let parts = lemma_operand_codes(e, si, env, l, brk, funcs);
    let end = compile_expr(e, si, env, l, brk, funcs)->Ok_0.1;
    lemma_labels(first_operand(e), si, env, parts.first_from, brk, funcs, operand_mode(mode));
    lemma_labels(second_operand(e), si + 1, env, parts.second_from, brk, funcs, operand_mode(mode));
    lemma_labels_widen(parts.first, parts.first_from, parts.first_to, l, end);
    lemma_labels_widen(parts.second, parts.second_from, parts.second_to, l, end);
    lemma_operator_labels(e->BinOp_0, parts.first, parts.second, si, parts.behind, l, end);
}

/// What compiling the parts of a conditional gives: the code of each part
/// and the counter values between them.
pub struct Branches {
    pub cond: Seq<InstrView>,
    /// The counter value behind the condition; the conditional takes its
    /// two labels from here.
    pub l1: int,
    pub first: Seq<InstrView>,
    /// The counter value behind the second part.
    pub l2: int,
    pub second: Seq<InstrView>,
    /// The counter value behind the third part.
    pub l3: int,
}

/// The code of a conditional is made of the codes of its three parts and
/// the jumps and labels between them.
pub proof fn lemma_branch_codes(
    e: ExprView,
    si: int,
    env: Map<Seq<char>, i64>,
    l: int,
    brk: Seq<char>,
    funcs: Set<Seq<char>>,
) -> (parts: Branches)
    requires
        e is If,
        compile_expr(e, si, env, l, brk, funcs) is Ok,
    ensures
        compile_expr(*e->If_0, si, env, l, brk, funcs) == Ok::<
            (Seq<InstrView>, int),
            crate::error::CompileErrorView,
        >((parts.cond, parts.l1)),
        compile_expr(*e->If_1, si, env, parts.l1 + 2, brk, funcs) == Ok::<
            (Seq<InstrView>, int),
            crate::error::CompileErrorView,
        >((parts.first, parts.l2)),
        compile_expr(*e->If_2, si + 1, env, parts.l2, brk, funcs) == Ok::<
            (Seq<InstrView>, int),
            crate::error::CompileErrorView,
        >((parts.second, parts.l3)),
        compile_expr(e, si, env, l, brk, funcs) == Ok::<
            (Seq<InstrView>, int),
            crate::error::CompileErrorView,
        >((branch_code(parts.cond, parts.first, parts.second, parts.l1), parts.l3)),
{
    let (cond, l1) = compile_expr(*e->If_0, si, env, l, brk, funcs)->Ok_0;
    let (first, l2) = compile_expr(*e->If_1, si, env, l1 + 2, brk, funcs)->Ok_0;
    let (second, l3) = compile_expr(*e->If_2, si + 1, env, l2, brk, funcs)->Ok_0;
    Branches { cond, l1, first, l2, second, l3 }
}

/// The labels of the code of a conditional with simple parts.
pub proof fn lemma_labels_if(
    e: ExprView,
    si: int,
    env: Map<Seq<char>, i64>,
    l: int,
    brk: Seq<char>,
    funcs: Set<Seq<char>>,
    mode: Mode,
)
    requires
        e is If,
        simple(e, mode),
        compile_expr(e, si, env, l, brk, funcs) is Ok,
    ensures
        l <= compile_expr(e, si, env, l, brk, funcs)->Ok_0.1,
        labels_in(
            compile_expr(e, si, env, l, brk, funcs)->Ok_0.0,
            l,
            compile_expr(e, si, env, l, brk, funcs)->Ok_0.1,
        ),
    decreases e, 0nat,
{
    let parts = lemma_branch_codes(e, si, env, l, brk, funcs);
    let l1 = parts.l1;
    let l3 = parts.l3;
    lemma_labels(*e->If_0, si, env, l, brk, funcs, condition_mode(mode));
    lemma_labels(*e->If_1, si, env, l1 + 2, brk, funcs, mode);
    lemma_labels(*e->If_2, si + 1, env, parts.l2, brk, funcs, mode);
    let jump = seq![
        InstrView::Cmp(rax(), imm(FALSE_VAL as int)),
        InstrView::JEqual(label(label_name("if"@, l1))),
    ];
    let middle = seq![
        InstrView::Jmp(label(label_name("endif"@, l1 + 1))),
        InstrView::Label(label(label_name("if"@, l1))),
    ];
    let end = seq![InstrView::Label(label(label_name("endif"@, l1 + 1)))];
    assert(labels_in(middle, l, l3)) by {
        lemma_branch_label(middle[1], l1, l, l3);
    }
    assert(labels_in(end, l, l3)) by {
        lemma_branch_label(end[0], l1 + 1, l, l3);
    }
    lemma_labels_widen(parts.cond, l, l1, l, l3);
    lemma_labels_widen(parts.first, l1 + 2, parts.l2, l, l3);
    lemma_labels_widen(parts.second, parts.l2, l3, l, l3);
    lemma_labels_concat(parts.cond, jump, l, l3);
    lemma_labels_concat(parts.cond + jump, parts.first, l, l3);
    lemma_labels_concat(parts.cond + jump + parts.first, middle, l, l3);
    lemma_labels_concat(parts.cond + jump + parts.first + middle, parts.second, l, l3);
    lemma_labels_concat(parts.cond + jump + parts.first + middle + parts.second, end, l, l3);
}

/// The labels of the code of the first `n` expressions of a simple block.
pub proof fn lemma_labels_block(
    es: Seq<ExprView>,
    n: int,
    si: int,
    env: Map<Seq<char>, i64>,
    l: int,
    brk: Seq<char>,
    funcs: Set<Seq<char>>,
    mode: Mode,
)
    requires
        0 <= n <= es.len(),
        simple_all(es, n, mode),
        compile_block(es, n, si, env, l, brk, funcs) is Ok,
    ensures
        l <= compile_block(es, n, si, env, l, brk, funcs)->Ok_0.1,
        labels_in(
            compile_block(es, n, si, env, l, brk, funcs)->Ok_0.0,
            l,
            compile_block(es, n, si, env, l, brk, funcs)->Ok_0.1,
        ),
    decreases es, n,
{
    if n > 0 {
        let (before, l1) = compile_block(es, n - 1, si, env, l, brk, funcs)->Ok_0;
        lemma_labels_block(es, n - 1, si, env, l, brk, funcs, mode);
        lemma_labels(es[n - 1], si, env, l1, brk, funcs, mode);
        let (c, l2) = compile_expr(es[n - 1], si, env, l1, brk, funcs)->Ok_0;
        lemma_labels_widen(before, l, l1, l, l2);
        lemma_labels_widen(c, l1, l2, l, l2);
        lemma_labels_concat(before, c, l, l2);
    }
}

/// The labels of the code of the first `n` bindings of a simple `let`.
pub proof fn lemma_labels_bindings(
    bs: Seq<(Seq<char>, ExprView)>,
    n: int,
    si: int,
    env: Map<Seq<char>, i64>,
    l: int,
    brk: Seq<char>,
    funcs: Set<Seq<char>>,
    mode: Mode,
)
    requires
        0 <= n <= bs.len(),
        simple_bindings(bs, n, mode),
        compile_bindings(bs, n, si, env, l, brk, funcs) is Ok,
    ensures
        l <= compile_bindings(bs, n, si, env, l, brk, funcs)->Ok_0.1,
        labels_in(
            compile_bindings(bs, n, si, env, l, brk, funcs)->Ok_0.0,
            l,
            compile_bindings(bs, n, si, env, l, brk, funcs)->Ok_0.1,
        ),
    decreases bs, n,
{
    if n > 0 {
        let (before, l1, env_p) = compile_bindings(bs, n - 1, si, env, l, brk, funcs)->Ok_0;
        lemma_labels_bindings(bs, n - 1, si, env, l, brk, funcs, mode);
        lemma_labels(bs[n - 1].1, si + n - 1, env_p, l1, brk, funcs, mode);
        let (c, l2) = compile_expr(bs[n - 1].1, si + n - 1, env_p, l1, brk, funcs)->Ok_0;
        lemma_labels_widen(before, l, l1, l, l2);
        lemma_labels_widen(c, l1, l2, l, l2);
        lemma_labels_concat(before, c, l, l2);
        lemma_labels_concat(before + c, seq![InstrView::IMov(slot(si + n - 1), rax())], l, l2);
    }
}

/// The labels of the code of the first `n` arguments of a call.
pub proof fn lemma_labels_args(
    args: Seq<ExprView>,
    n: int,
    si: int,
    env: Map<Seq<char>, i64>,
    l: int,
    brk: Seq<char>,
    funcs: Set<Seq<char>>,
    mode: Mode,
)
    requires
        0 <= n <= args.len(),
        simple_all(args, n, mode),
        compile_args(args, n, si, env, l, brk, funcs) is Ok,
    ensures
        l <= compile_args(args, n, si, env, l, brk, funcs)->Ok_0.1,
        labels_in(
            compile_args(args, n, si, env, l, brk, funcs)->Ok_0.0,
            l,
            compile_args(args, n, si, env, l, brk, funcs)->Ok_0.1,
        ),
    decreases n,
{
    if n > 0 {
        let (before, l1) = compile_args(args, n - 1, si, env, l, brk, funcs)->Ok_0;
        lemma_labels_args(args, n - 1, si, env, l, brk, funcs, mode);
        lemma_labels(args[n - 1], si + n - 1, env, l1, brk, funcs, mode);
        let (c, l2) = compile_expr(args[n - 1], si + n - 1, env, l1, brk, funcs)->Ok_0;
        lemma_labels_widen(before, l, l1, l, l2);
        lemma_labels_widen(c, l1, l2, l, l2);
        lemma_labels_concat(before, c, l, l2);
        lemma_labels_concat(before + c, seq![InstrView::IMov(slot(si + n - 1), rax())], l, l2);
    }
}

} // verus!
