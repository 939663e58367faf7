//! A model of the processor on which the emitted instructions run: four
//! registers, three flags, a memory of words, and the words that the runtime
//! has printed. It says what a list of instructions does when control
//! enters it and moves forward.

use vstd::prelude::*;
use crate::types::{InstrView, Reg, ValView};

verus! {

/// The state of the processor. Registers and memory hold words as signed
/// numbers; `mem` maps an address to the word stored there.
pub struct Machine {
    pub rax: int,
    pub rbx: int,
    pub rdi: int,
    pub rsp: int,
    pub mem: Map<int, int>,
    /// The last result was zero.
    pub zero: bool,
    /// The last result was negative.
    pub sign: bool,
    /// The last result did not fit a word.
    pub over: bool,
    /// The words that the runtime has printed, the latest last.
    pub out: Seq<int>,
}

/// Whether `x` fits a signed word of 64 bits.
pub open spec fn fits(x: int) -> bool {
    -0x8000_0000_0000_0000 <= x < 0x8000_0000_0000_0000
}

/// The signed word that is left of `x` when only its low 64 bits are kept.
pub open spec fn wrap(x: int) -> int {
    (x + 0x8000_0000_0000_0000) % 0x1_0000_0000_0000_0000 - 0x8000_0000_0000_0000
}

/// The bits of a signed word, as an unsigned one.
pub open spec fn bits(w: int) -> u64 {
    (if w < 0 {
        w + 0x1_0000_0000_0000_0000
    } else {
        w
    }) as u64
}

/// The bitwise and of two words.
pub open spec fn bit_and(a: int, b: int) -> int {
    wrap((bits(a) & bits(b)) as int)
}

/// The bitwise exclusive or of two words.
pub open spec fn bit_xor(a: int, b: int) -> int {
    wrap((bits(a) ^ bits(b)) as int)
}

impl Machine {
    /// The word in a register.
    pub open spec fn reg(self, r: Reg) -> int {
        match r {
            Reg::RAX => self.rax,
            Reg::RBX => self.rbx,
            Reg::RDI => self.rdi,
            Reg::RSP => self.rsp,
        }
    }

    /// The state with the word `w` in a register.
    pub open spec fn set_reg(self, r: Reg, w: int) -> Machine {
        match r {
            Reg::RAX => Machine { rax: w, ..self },
            Reg::RBX => Machine { rbx: w, ..self },
            Reg::RDI => Machine { rdi: w, ..self },
            Reg::RSP => Machine { rsp: w, ..self },
        }
    }

    /// The word that an operand stands for: the register's word, the
    /// immediate as a signed word, or the word at the register's address
    /// lowered by the offset.
    pub open spec fn read(self, v: ValView) -> int {
        match v {
            ValView::Reg(r) => self.reg(r),
            ValView::Imm(n) => wrap(n),
            ValView::RegOffset(r, n) => self.mem[self.reg(r) - n],
            ValView::Label(_) => 0,
        }
    }

    /// The state with the word `w` at the place that an operand names.
    pub open spec fn write(self, v: ValView, w: int) -> Machine {
        match v {
            ValView::Reg(r) => self.set_reg(r, w),
            ValView::RegOffset(r, n) => Machine { mem: self.mem.insert(self.reg(r) - n, w), ..self },
            _ => self,
        }
    }

    /// The state with the flags of the result `exact`, computed without
    /// regard to the width of a word.
    pub open spec fn flags(self, exact: int) -> Machine {
        Machine { zero: wrap(exact) == 0, sign: wrap(exact) < 0, over: !fits(exact), ..self }
    }
}

/// The state after an instruction that does not transfer control.
pub open spec fn step(m: Machine, i: InstrView) -> Machine {
    match i {
        InstrView::IMov(dst, src) => m.write(dst, m.read(src)),
        InstrView::IAdd(dst, src) => {
            let exact = m.read(dst) + m.read(src);
            m.write(dst, wrap(exact)).flags(exact)
        },
        InstrView::ISub(dst, src) => {
            let exact = m.read(dst) - m.read(src);
            m.write(dst, wrap(exact)).flags(exact)
        },
        InstrView::IMul(dst, src) => {
            let exact = m.read(dst) * m.read(src);
            m.write(dst, wrap(exact)).flags(exact)
        },
        InstrView::Shl(dst, _) => {
            let exact = m.read(dst) * 2;
            m.write(dst, wrap(exact)).flags(exact)
        },
        InstrView::Shr(dst, _) => {
            let half = m.read(dst) / 2;
            m.write(dst, half).flags(half)
        },
        InstrView::Cmp(a, b) => m.flags(m.read(a) - m.read(b)),
        InstrView::Test(a, b) => m.flags(bit_and(m.read(a), m.read(b))),
        InstrView::Xor(dst, src) => {
            let word = bit_xor(m.read(dst), m.read(src));
            m.write(dst, word).flags(word)
        },
        InstrView::Cmove(dst, src) => {
            if m.zero {
                m.write(dst, m.read(src))
            } else {
                m
            }
        },
        InstrView::Push(src) => {
            let word = m.read(src);
            Machine { rsp: m.rsp - 8, mem: m.mem.insert(m.rsp - 8, word), ..m }
        },
        InstrView::Pop(dst) => {
            let word = m.mem[m.rsp];
            Machine { rsp: m.rsp + 8, ..m }.write(dst, word)
        },
        _ => m,
    }
}

/// The state in which the runtime hands control back from printing: it has
/// printed the word in `rdi` and returns it in `rax`; `rdi`, the flags and
/// the words below the stack pointer are no longer what they were.
pub open spec fn after_print(m: Machine) -> Machine {
    Machine {
        rax: m.rdi,
        rdi: 0,
        mem: Map::new(
            |a: int| true,
            |a: int|
                if a < m.rsp {
                    0
                } else {
                    m.mem[a]
                },
        ),
        zero: false,
        sign: false,
        over: true,
        out: m.out.push(m.rdi),
        ..m
    }
}

/// Whether an instruction is a call of the runtime's printing function
/// that the runtime takes: the stack pointer must be a multiple of 16.
pub open spec fn prints(i: InstrView, m: Machine) -> bool {
    i == InstrView::Call(ValView::Label("snek_print"@)) && m.rsp % 16 == 0
}

/// The label that an instruction may jump to.
pub open spec fn static_target(i: InstrView) -> Option<Seq<char>> {
    match i {
        InstrView::Jmp(ValView::Label(name)) => Some(name),
        InstrView::JEqual(ValView::Label(name)) => Some(name),
        InstrView::JNotEqual(ValView::Label(name)) => Some(name),
        InstrView::JGreater(ValView::Label(name)) => Some(name),
        InstrView::JGreaterEqual(ValView::Label(name)) => Some(name),
        InstrView::JLess(ValView::Label(name)) => Some(name),
        InstrView::JLessEqual(ValView::Label(name)) => Some(name),
        InstrView::OverFlow() => Some("overflow"@),
        _ => None,
    }
}

/// Whether the flags let a jump instruction jump.
pub open spec fn taken(i: InstrView, m: Machine) -> bool {
    match i {
        InstrView::Jmp(_) => true,
        InstrView::JEqual(_) => m.zero,
        InstrView::JNotEqual(_) => !m.zero,
        InstrView::JGreater(_) => !m.zero && m.sign == m.over,
        InstrView::JGreaterEqual(_) => m.sign == m.over,
        InstrView::JLess(_) => m.sign != m.over,
        InstrView::JLessEqual(_) => m.zero || m.sign != m.over,
        InstrView::OverFlow() => m.over,
        _ => false,
    }
}

/// Whether an instruction defines the label `name`.
pub open spec fn defines(i: InstrView, name: Seq<char>) -> bool {
    i == InstrView::Label(ValView::Label(name))
}

/// The first place at or behind `from` where the code defines the label
/// `name`, or the length of the code if there is none.
pub open spec fn find_ahead(code: Seq<InstrView>, from: int, name: Seq<char>) -> int
    decreases code.len() - from,
{
    if from < 0 || from >= code.len() {
        code.len() as int
    } else if defines(code[from], name) {
        from
    } else {
        find_ahead(code, from + 1, name)
    }
}

/// How control leaves a list of instructions.
pub enum Outcome {
    /// It falls off the end.
    Done(Machine),
    /// It jumps to a label that the list does not define further on.
    Leaves(Seq<char>, Machine),
    /// It calls a function.
    Calls(Seq<char>, Machine),
    /// It returns to the caller.
    Returns(Machine),
}

/// What happens when control stands before instruction `pc` of `code` in the
/// state `m` and moves forward: each instruction changes the state; a jump
/// that is taken goes on behind the next definition of its label, and
/// leaves the list if there is none ahead; a call of the runtime's printing
/// function with the stack pointer aligned prints and goes on; any other
/// call and a return leave the list.
pub open spec fn run(code: Seq<InstrView>, pc: int, m: Machine) -> Outcome
    decreases code.len() - pc,
{
    if pc < 0 || pc >= code.len() {
        Outcome::Done(m)
    } else {
        match code[pc] {
            InstrView::Call(ValView::Label(f)) => {
                if prints(code[pc], m) {
                    run(code, pc + 1, after_print(m))
                } else {
                    Outcome::Calls(f, m)
                }
            },
            InstrView::Call(_) => Outcome::Calls(Seq::empty(), m),
            InstrView::Ret() => Outcome::Returns(m),
            i => {
                if static_target(i) is Some && taken(i, m) {
                    let name = static_target(i)->Some_0;
                    let j = find_ahead(code, pc + 1, name);
                    if pc < j && j < code.len() {
                        run(code, j + 1, m)
                    } else {
                        Outcome::Leaves(name, m)
                    }
                } else {
                    run(code, pc + 1, step(m, i))
                }
            },
        }
    }
}

/// What happens when control enters a list of instructions at its start.
pub open spec fn execute(code: Seq<InstrView>, m: Machine) -> Outcome {
    run(code, 0, m)
}

/// What happens when the list `rest` follows a list that control left in
/// the way `first`: `rest` runs if control fell off the end of the first
/// list, and not at all if it left in another way.
pub open spec fn then_run(first: Outcome, rest: Seq<InstrView>) -> Outcome {
    match first {
        Outcome::Done(m) => run(rest, 0, m),
        other => other,
    }
}

/// What happens when the list `rest` follows a list that control left in
/// the way `first`: `rest` runs from its start if control fell off the end
/// of the first list; it runs from behind the label if control left for a
/// label that `rest` defines; and it does not run if control left in
/// another way.
pub open spec fn resume(first: Outcome, rest: Seq<InstrView>) -> Outcome {
    match first {
        Outcome::Done(m) => run(rest, 0, m),
        Outcome::Leaves(name, m) => {
            let j = find_ahead(rest, 0, name);
            if j < rest.len() {
                run(rest, j + 1, m)
            } else {
                Outcome::Leaves(name, m)
            }
        },
        other => other,
    }
}

/// The search for a label from a place in the second of two lists is the
/// search in the second list alone.
pub proof fn lemma_find_in_second(
    first: Seq<InstrView>,
    second: Seq<InstrView>,
    k: int,
    name: Seq<char>,
)
    requires
        0 <= k <= second.len(),
    ensures
        find_ahead(first + second, first.len() + k, name) == first.len() + find_ahead(
            second,
            k,
            name,
        ),
    decreases second.len() - k,
{
    if k < second.len() {
        assert((first + second)[first.len() + k] == second[k]);
        if !defines(second[k], name) {
            lemma_find_in_second(first, second, k + 1, name);
        }
    }
}

/// A label that a list does not define is not found in it.
pub proof fn lemma_find_absent(code: Seq<InstrView>, from: int, name: Seq<char>)
    requires
        0 <= from,
        forall|j: int| 0 <= j < code.len() ==> !defines(#[trigger] code[j], name),
    ensures
        find_ahead(code, from, name) == code.len(),
    decreases code.len() - from,
{
    if from < code.len() {
        lemma_find_absent(code, from + 1, name);
    }
}

/// The search for a label from a place in the first of two lists finds what
/// the search in the first list alone finds; if that finds nothing, it goes
/// on in the second list.
pub proof fn lemma_find_in_first(
    first: Seq<InstrView>,
    second: Seq<InstrView>,
    from: int,
    name: Seq<char>,
)
    requires
        0 <= from <= first.len(),
    ensures
        find_ahead(first, from, name) < first.len() ==> find_ahead(first + second, from, name)
            == find_ahead(first, from, name),
        find_ahead(first, from, name) >= first.len() ==> find_ahead(first + second, from, name)
            == first.len() + find_ahead(second, 0, name),
        from <= find_ahead(first, from, name) <= first.len(),
    decreases first.len() - from,
{
    if from < first.len() {
        assert((first + second)[from] == first[from]);
        if !defines(first[from], name) {
            lemma_find_in_first(first, second, from + 1, name);
        }
    } else {
        lemma_find_in_second(first, second, 0, name);
    }
}

/// Control that stands in the second of two lists goes on as in the second
/// list alone.
pub proof fn lemma_run_in_second(
    first: Seq<InstrView>,
    second: Seq<InstrView>,
    k: int,
    m: Machine,
)
    requires
        0 <= k <= second.len(),
    ensures
        run(first + second, first.len() + k, m) == run(second, k, m),
    decreases second.len() - k,
{
    let whole = first + second;
    if k < second.len() {
        let i = second[k];
        assert(whole[first.len() + k] == i);
        match i {
            InstrView::Call(_) => {
                if prints(i, m) {
                    lemma_run_in_second(first, second, k + 1, after_print(m));
                }
            },
            InstrView::Ret() => {},
            _ => {
                if static_target(i) is Some && taken(i, m) {
                    let name = static_target(i)->Some_0;
                    lemma_find_in_second(first, second, k + 1, name);
                    let j = find_ahead(second, k + 1, name);
                    lemma_find_bounds(second, k + 1, name);
                    if k < j && j < second.len() {
                        lemma_run_in_second(first, second, j + 1, m);
                    }
                } else {
                    lemma_run_in_second(first, second, k + 1, step(m, i));
                }
            },
        }
    }
}

/// The search for a label ends at or behind the place where it starts, and
/// not behind the end of the list.
pub proof fn lemma_find_bounds(code: Seq<InstrView>, from: int, name: Seq<char>)
    requires
        0 <= from <= code.len(),
    ensures
        from <= find_ahead(code, from, name) <= code.len(),
    decreases code.len() - from,
{
    if from < code.len() && !defines(code[from], name) {
        lemma_find_bounds(code, from + 1, name);
    }
}

/// Running two lists one after the other is running the first and then
/// resuming in the second.
pub proof fn lemma_run_resume(
    first: Seq<InstrView>,
    second: Seq<InstrView>,
    pc: int,
    m: Machine,
)
    requires
        0 <= pc <= first.len(),
    ensures
        run(first + second, pc, m) == resume(run(first, pc, m), second),
    decreases first.len() - pc,
{
    let whole = first + second;
    if pc < first.len() {
        let i = first[pc];
        assert(whole[pc] == i);
        match i {
            InstrView::Call(_) => {
                if prints(i, m) {
                    lemma_run_resume(first, second, pc + 1, after_print(m));
                }
            },
            InstrView::Ret() => {},
            _ => {
                if static_target(i) is Some && taken(i, m) {
                    let name = static_target(i)->Some_0;
                    lemma_find_in_first(first, second, pc + 1, name);
                    let j = find_ahead(first, pc + 1, name);
                    if j < first.len() {
                        lemma_run_resume(first, second, j + 1, m);
                    } else {
                        let k = find_ahead(second, 0, name);
                        lemma_find_bounds(second, 0, name);
                        if k < second.len() {
                            lemma_run_in_second(first, second, k + 1, m);
                        }
                    }
                } else {
                    lemma_run_resume(first, second, pc + 1, step(m, i));
                }
            },
        }
    } else {
        lemma_run_in_second(first, second, 0, m);
    }
}

/// A word that fits is what is left of itself.
pub proof fn lemma_wrap_fits(x: int)
    requires
        fits(x),
    ensures
        wrap(x) == x,
{
}

/// A list of one instruction that does not transfer control leaves the
/// state that the instruction makes.
pub proof fn lemma_single(i: InstrView, m: Machine)
    requires
        !(i is Call),
        !(i is Ret),
        static_target(i) is None,
    ensures
        execute(seq![i], m) == Outcome::Done(step(m, i)),
{
    let code = seq![i];
    assert(code[0] == i);
    assert(run(code, 1, step(m, i)) == Outcome::Done(step(m, i)));
    assert(run(code, 0, m) == run(code, 1, step(m, i)));
}

/// The overflow check alone leaves for the overflow trampoline if the
/// overflow flag is set, and does nothing if it is clear.
pub proof fn lemma_overflow_check(m: Machine)
    ensures
        execute(seq![InstrView::OverFlow()], m) == (if m.over {
            Outcome::Leaves("overflow"@, m)
        } else {
            Outcome::Done(m)
        }),
{
    let code = seq![InstrView::OverFlow()];
    assert(code[0] == InstrView::OverFlow());
    lemma_find_absent(code, 1, "overflow"@);
    assert(run(code, 1, m) == Outcome::Done(m));
    assert(step(m, InstrView::OverFlow()) == m);
}

/// An instruction that does not transfer control, with the overflow check
/// behind it, leaves for the overflow trampoline if the instruction sets
/// the overflow flag, and leaves the state that the instruction makes if
/// not.
pub proof fn lemma_checked(i: InstrView, m: Machine)
    requires
        !(i is Call),
        !(i is Ret),
        static_target(i) is None,
    ensures
        execute(seq![i, InstrView::OverFlow()], m) == (if step(m, i).over {
            Outcome::Leaves("overflow"@, step(m, i))
        } else {
            Outcome::Done(step(m, i))
        }),
{
    let code = seq![i, InstrView::OverFlow()];
    let m1 = step(m, i);
    assert(code[0] == i);
    assert(code[1] == InstrView::OverFlow());
    assert(find_ahead(code, 2, "overflow"@) == 2);
    assert(run(code, 2, m1) == Outcome::Done(m1));
    assert(step(m1, InstrView::OverFlow()) == m1);
    assert(run(code, 1, m1) == (if m1.over {
        Outcome::Leaves("overflow"@, m1)
    } else {
        Outcome::Done(m1)
    }));
    assert(run(code, 0, m) == run(code, 1, m1));
}

} // verus!
