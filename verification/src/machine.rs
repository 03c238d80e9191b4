//! A model of the processor, for the instructions that the generator emits, and what
//! generated code computes on it.
//!
//! The model follows instructions one by one. It knows the accumulator `rax`, the operand
//! register `rcx`, the flags that a test or a comparison leaves, the stack, and the slots
//! of the frame. The slots are the memory below the frame base. What they hold when the
//! frame base is set is whatever memory holds at that moment: the model takes it from the
//! machine's state, and what is proved holds for every such content.
//!
//! A function may reserve its frame, and pushes then land below its slots. In a frame
//! that is not reserved the slots lie where the pushes land: the operand at the depth
//! `i` above the frame base and the slot at position `i` are the same memory, so that a
//! push writes the slot and a store writes the operand.

use crate::ast::{BinaryOp, Expr};
use crate::codegen::{
    assemble, assigns, assigns_name, encode, epilogue, exposed, function_of,
    lemma_assemble_concat, lower, needs_frame, operator_instrs, prologue,
    reserved_slots, Instr,
};
use crate::interpreter::{apply_binary, eval, truth, wrap64, EvalError};
use crate::layout::{distinct, position, slot_offset, MAX_SLOTS};
use crate::order::{
    call_free, lemma_lowered_is_call_free, lemma_operands_commute, lemma_unassigned_stays,
};
use crate::stack::offset_of;
use vstd::prelude::*;

verus! {

/// The state of the processor between two instructions.
pub struct Machine {
    /// The index of the next instruction.
    pub pc: int,
    /// The accumulator.
    pub rax: i64,
    /// The register that takes the right operand.
    pub rcx: i64,
    /// The register that a multiplication uses besides `rax`.
    pub rdx: i64,
    /// Whether the last test found zero, or the last comparison equal operands.
    pub zero: bool,
    /// Whether the last comparison found `rax` below `rcx`, as signed numbers.
    pub less: bool,
    /// The frame base: the depth of the stack at which the frame begins.
    pub frame: int,
    /// Whether the function has set the frame base.
    pub framed: bool,
    /// The stack, the top last.
    pub stack: Seq<int>,
    /// The slots of the frame: the slot at position `i` lies `8 * (i + 1)` bytes below
    /// the frame base.
    pub slots: Seq<i64>,
    /// Whether the function has reserved its frame, so that pushes land below the slots.
    pub reserved: bool,
    /// What the memory below the stack pointer holds when the frame base is set.
    pub seed: Seq<i64>,
}

/// The position of the slot at the frame offset `offset`.
pub open spec fn slot_index(offset: int) -> int {
    (-offset) / 8 - 1
}

/// The number of operands on the stack above the frame base.
pub open spec fn depth(m: Machine) -> int {
    m.stack.len() - m.frame
}

/// The slots after a push of `value`: in a frame that is not reserved the push writes
/// the slot that lies where it lands.
pub open spec fn slots_after_push(m: Machine, value: i64) -> Seq<i64> {
    if !m.reserved && 0 <= depth(m) < m.slots.len() {
        m.slots.update(depth(m), value)
    } else {
        m.slots
    }
}

/// The stack after a store of `value` to the slot at position `i`: in a frame that is
/// not reserved the store writes the operand that lies on the slot.
pub open spec fn stack_after_store(m: Machine, i: int, value: i64) -> Seq<int> {
    if !m.reserved && 0 <= i < depth(m) {
        m.stack.update(m.frame + i, value as int)
    } else {
        m.stack
    }
}

/// Whether `offset` is the frame offset of a slot that the model knows.
pub open spec fn is_slot(m: Machine, offset: int) -> bool {
    offset < 0 && offset % 8 == 0 && slot_index(offset) < m.slots.len()
}

/// `rax` with its low byte set to `flag` and the other bytes as they are.
#[verifier::opaque]
pub open spec fn with_low_byte(rax: i64, flag: bool) -> i64 {
    (rax - (rax as int) % 256 + truth(flag)) as i64
}

/// `rax` cut to its low byte.
#[verifier::opaque]
pub open spec fn low_byte(rax: i64) -> i64 {
    ((rax as int) % 256) as i64
}

/// Whether the instruction `k` of `program` starts at the byte offset `target`.
pub open spec fn lands_on(program: Seq<Instr>, target: int, k: int) -> bool {
    0 <= k <= program.len() && offset_of(program, k) == target
}

/// The instruction that a branch reaches: the one that starts `displacement` bytes
/// after the end of the branch, which is the instruction `branch`. None where no
/// instruction starts there.
pub open spec fn branch_target(program: Seq<Instr>, branch: int, displacement: int) -> Option<
    int,
> {
    let target = offset_of(program, branch + 1) + displacement;
    if exists|k: int| lands_on(program, target, k) {
        Some(choose|k: int| lands_on(program, target, k))
    } else {
        None
    }
}

/// The state after the next instruction. None where there is no next instruction, where
/// the instruction returns or faults, and where it is outside the model: a pop that would
/// reach into the frame, and an access to a slot that the model does not know. A push
/// of the frame base in a frame that is not reserved lands on a slot; the model forgets
/// the slots there.
pub open spec fn step(program: Seq<Instr>, m: Machine) -> Option<Machine> {
    if !(0 <= m.pc < program.len()) {
        None
    } else {
        let next = m.pc + 1;
        match program[m.pc] {
            Instr::PushRbp => Some(
                Machine {
                    pc: next,
                    stack: m.stack.push(m.frame),
                    slots: if m.reserved {
                        m.slots
                    } else {
                        Seq::empty()
                    },
                    ..m
                },
            ),
            Instr::MovRbpRsp => Some(
                Machine {
                    pc: next,
                    frame: m.stack.len() as int,
                    framed: true,
                    slots: m.seed,
                    reserved: false,
                    ..m
                },
            ),
            Instr::ReserveFrame(size) => if m.framed && m.stack.len() == m.frame && !m.reserved
                && size >= 0 && size % 8 == 0 && size / 8 <= m.slots.len() {
                Some(Machine { pc: next, slots: m.slots.take(size / 8), reserved: true, ..m })
            } else {
                None
            },
            Instr::MovRspRbp => if m.framed && 0 <= m.frame <= m.stack.len() {
                Some(
                    Machine {
                        pc: next,
                        stack: m.stack.take(m.frame),
                        slots: Seq::empty(),
                        reserved: false,
                        ..m
                    },
                )
            } else {
                None
            },
            Instr::PopRbp => if m.stack.len() > 0 && m.slots.len() == 0 {
                Some(
                    Machine {
                        pc: next,
                        frame: m.stack.last(),
                        framed: false,
                        stack: m.stack.drop_last(),
                        ..m
                    },
                )
            } else {
                None
            },
            Instr::Ret => None,
            Instr::LoadImmediate(v) => Some(
                Machine {
                    pc: next,
                    rax: if 0 <= v <= 127 {
                        ((v as u32) as int) as i64
                    } else {
                        v
                    },
                    ..m
                },
            ),
            Instr::LoadSlot(offset) => if is_slot(m, offset as int) {
                Some(Machine { pc: next, rax: m.slots[slot_index(offset as int)], ..m })
            } else {
                None
            },
            Instr::StoreSlot(offset) => if is_slot(m, offset as int) {
                Some(
                    Machine {
                        pc: next,
                        slots: m.slots.update(slot_index(offset as int), m.rax),
                        stack: stack_after_store(m, slot_index(offset as int), m.rax),
                        ..m
                    },
                )
            } else {
                None
            },
            Instr::PushRax => if m.framed && m.stack.len() >= m.frame {
                Some(
                    Machine {
                        pc: next,
                        stack: m.stack.push(m.rax as int),
                        slots: slots_after_push(m, m.rax),
                        ..m
                    },
                )
            } else {
                None
            },
            Instr::PopRcx => if m.framed && m.stack.len() > m.frame {
                Some(
                    Machine {
                        pc: next,
                        rcx: m.stack.last() as i64,
                        stack: m.stack.drop_last(),
                        ..m
                    },
                )
            } else {
                None
            },
            Instr::AddRaxRcx => Some(Machine { pc: next, rax: wrap64(m.rax + m.rcx), ..m }),
            Instr::SubRaxRcx => Some(Machine { pc: next, rax: wrap64(m.rax - m.rcx), ..m }),
            Instr::MulRcx => Some(
                Machine {
                    pc: next,
                    rax: wrap64(m.rax * m.rcx),
                    rdx: wrap64(((m.rax as u64) * (m.rcx as u64)) / 0x1_0000_0000_0000_0000),
                    ..m
                },
            ),
            Instr::TestRax => Some(Machine { pc: next, zero: m.rax == 0, less: m.rax < 0, ..m }),
            Instr::CompareRaxRcx => Some(
                Machine { pc: next, zero: m.rax == m.rcx, less: m.rax < m.rcx, ..m },
            ),
            Instr::SetEqual => Some(Machine { pc: next, rax: with_low_byte(m.rax, m.zero), ..m }),
            Instr::SetLess => Some(Machine { pc: next, rax: with_low_byte(m.rax, m.less), ..m }),
            Instr::SetGreater => Some(
                Machine { pc: next, rax: with_low_byte(m.rax, !m.zero && !m.less), ..m },
            ),
            Instr::WidenAl => Some(Machine { pc: next, rax: low_byte(m.rax), ..m }),
            Instr::JumpIfZero(d) => if m.zero {
                match branch_target(program, m.pc, d as int) {
                    Some(k) => Some(Machine { pc: k, ..m }),
                    None => None,
                }
            } else {
                Some(Machine { pc: next, ..m })
            },
            Instr::Jump(d) => match branch_target(program, m.pc, d as int) {
                Some(k) => Some(Machine { pc: k, ..m }),
                None => None,
            },
        }
    }
}

/// The state after `n` instructions.
pub open spec fn run(program: Seq<Instr>, m: Machine, n: nat) -> Option<Machine>
    decreases n,
{
    if n == 0 {
        Some(m)
    } else {
        match step(program, m) {
            Some(next) => run(program, next, (n - 1) as nat),
            None => None,
        }
    }
}

/// Whether `program` holds the instructions `segment` from the instruction `at` on.
pub open spec fn holds_at(program: Seq<Instr>, segment: Seq<Instr>, at: int) -> bool {
    &&& 0 <= at
    &&& at + segment.len() <= program.len()
    &&& program.subrange(at, at + segment.len()) == segment
}

/// A program that holds two segments in a row holds each of them.
pub proof fn lemma_holds_parts(program: Seq<Instr>, a: Seq<Instr>, b: Seq<Instr>, at: int)
    requires
        holds_at(program, a + b, at),
    ensures
        holds_at(program, a, at),
        holds_at(program, b, at + a.len()),
{
    let whole = program.subrange(at, at + (a + b).len());
    assert(program.subrange(at, at + a.len()) =~= whole.subrange(0, a.len() as int));
    assert(whole.subrange(0, a.len() as int) =~= a);
    assert(program.subrange(at + a.len(), at + a.len() + b.len()) =~= whole.subrange(
        a.len() as int,
        (a + b).len() as int,
    ));
    assert(whole.subrange(a.len() as int, (a + b).len() as int) =~= b);
}

/// A program that holds a single instruction has it at that index.
pub proof fn lemma_holds_one(program: Seq<Instr>, i: Instr, at: int)
    requires
        holds_at(program, seq![i], at),
    ensures
        0 <= at < program.len(),
        program[at] == i,
{
    assert(program.subrange(at, at + 1)[0] == program[at]);
}

/// Running `a + b` instructions is running `a` and then `b`.
pub proof fn lemma_run_split(program: Seq<Instr>, m: Machine, a: nat, b: nat)
    ensures
        run(program, m, a + b) == match run(program, m, a) {
            Some(middle) => run(program, middle, b),
            None => None,
        },
    decreases a,
{
    if a > 0 {
        match step(program, m) {
            Some(next) => {
                lemma_run_split(program, next, (a - 1) as nat, b);
                assert((a + b - 1) as nat == (a - 1) as nat + b);
            },
            None => {},
        }
    }
}

/// The encoding of every instruction has at least one byte.
pub proof fn lemma_encoding_is_not_empty(i: Instr)
    ensures
        encode(i).len() > 0,
{
}

/// The byte offset of a later instruction is that of an earlier one plus the size of
/// the machine code between them.
pub proof fn lemma_offset_between(program: Seq<Instr>, from: int, to: int)
    requires
        0 <= from <= to <= program.len(),
    ensures
        offset_of(program, to) == offset_of(program, from) + assemble(
            program.subrange(from, to),
        ).len(),
        from < to ==> offset_of(program, from) < offset_of(program, to),
    decreases to - from,
{
    assert(program.take(to) =~= program.take(from) + program.subrange(from, to));
    lemma_assemble_concat(program.take(from), program.subrange(from, to));
    if from < to {
        let part = program.subrange(from, to);
        lemma_encoding_is_not_empty(part.last());
        assert(assemble(part).len() == assemble(part.drop_last()).len() + encode(
            part.last(),
        ).len());
    }
}

/// A branch reaches the instruction that starts where its displacement points.
pub proof fn lemma_branch_target(program: Seq<Instr>, branch: int, displacement: int, to: int)
    requires
        0 <= branch < program.len(),
        0 <= to <= program.len(),
        offset_of(program, to) == offset_of(program, branch + 1) + displacement,
    ensures
        branch_target(program, branch, displacement) == Some(to),
{
    let target = offset_of(program, branch + 1) + displacement;
    assert(lands_on(program, target, to));
    let k = choose|k: int| lands_on(program, target, k);
    if k < to {
        lemma_offset_between(program, k, to);
    } else if to < k {
        lemma_offset_between(program, to, k);
    }
}

/// Whether the machine `after` is `before` after it ran a piece of code that ends at the
/// instruction `end` and left `value` in the accumulator, with the stack and the frame
/// as they were.
pub open spec fn computed(before: Machine, after: Option<Machine>, end: int, value: i64) -> bool {
    match after {
        Some(a) => {
            &&& a.pc == end
            &&& a.rax == value
            &&& a.stack == before.stack
            &&& a.frame == before.frame
            &&& a.framed == before.framed
            &&& a.seed == before.seed
            &&& a.reserved == before.reserved
            &&& a.slots.len() == before.slots.len()
        },
        None => false,
    }
}

/// Whether the slots are as they were.
pub open spec fn same_slots(before: Machine, after: Option<Machine>) -> bool {
    after is Some && after.unwrap().slots == before.slots
}

/// Running one instruction is a step.
pub proof fn lemma_run_one(program: Seq<Instr>, m: Machine)
    ensures
        run(program, m, 1) == step(program, m),
{
    reveal_with_fuel(run, 2);
}

/// Cutting the accumulator to the low byte that a flag was written to leaves the flag.
pub proof fn lemma_flag_widens(rax: i64, flag: bool)
    ensures
        low_byte(with_low_byte(rax, flag)) == truth(flag),
{
    reveal(with_low_byte);
    reveal(low_byte);
    let r = rax as int;
    let t = truth(flag) as int;
    assert(0 <= r % 256 < 256);
    assert((r - r % 256) % 256 == 0) by (nonlinear_arith);
    assert((r - r % 256 + t) % 256 == t) by (nonlinear_arith)
        requires
            (r - r % 256) % 256 == 0,
            0 <= t < 256,
    ;
    assert(r - r % 256 >= -0x8000_0000_0000_0000) by {
        assert((-0x8000_0000_0000_0000int) % 256 == 0);
        if r - r % 256 < -0x8000_0000_0000_0000 {
            assert(false) by (nonlinear_arith)
                requires
                    r >= -0x8000_0000_0000_0000,
                    r - r % 256 < -0x8000_0000_0000_0000,
                    0 <= r % 256 < 256,
                    (r - r % 256) % 256 == 0,
            ;
        }
    }
}

/// A single arithmetic instruction computes what its operator denotes.
pub proof fn lemma_arithmetic_computes(op: BinaryOp, program: Seq<Instr>, at: int, m: Machine)
    requires
        op is Add || op is Sub || op is Mul,
        holds_at(program, operator_instrs(op).unwrap(), at),
        m.pc == at,
    ensures
        computed(m, run(program, m, 1), at + 1, apply_binary(op, m.rax, m.rcx).unwrap()),
        same_slots(m, run(program, m, 1)),
{
    let ops = operator_instrs(op).unwrap();
    lemma_holds_one(program, ops[0], at);
    assert(ops =~= seq![ops[0]]);
    lemma_run_one(program, m);
}

/// The machine after a comparison of `rax` with `rcx`.
pub open spec fn compared(m: Machine) -> Machine {
    Machine { pc: m.pc + 1, zero: m.rax == m.rcx, less: m.rax < m.rcx, ..m }
}

/// The machine after `flag` was written to the low byte of the accumulator.
pub open spec fn flagged(m: Machine, flag: bool) -> Machine {
    Machine { pc: m.pc + 1, rax: with_low_byte(m.rax, flag), ..m }
}

/// The machine after the low byte of the accumulator was widened.
pub open spec fn widened(m: Machine) -> Machine {
    Machine { pc: m.pc + 1, rax: low_byte(m.rax), ..m }
}

/// A comparison sets the flags by its operands.
pub proof fn lemma_step_compare(program: Seq<Instr>, m: Machine)
    requires
        0 <= m.pc < program.len(),
        program[m.pc] == Instr::CompareRaxRcx,
    ensures
        step(program, m) == Some(compared(m)),
{
}

/// A flag is written to the low byte of the accumulator.
pub proof fn lemma_step_set(program: Seq<Instr>, m: Machine)
    requires
        0 <= m.pc < program.len(),
        program[m.pc] is SetEqual || program[m.pc] is SetLess || program[m.pc] is SetGreater,
    ensures
        program[m.pc] is SetEqual ==> step(program, m) == Some(flagged(m, m.zero)),
        program[m.pc] is SetLess ==> step(program, m) == Some(flagged(m, m.less)),
        program[m.pc] is SetGreater ==> step(program, m) == Some(
            flagged(m, !m.zero && !m.less),
        ),
{
}

/// The low byte of the accumulator is widened.
pub proof fn lemma_step_widen(program: Seq<Instr>, m: Machine)
    requires
        0 <= m.pc < program.len(),
        program[m.pc] == Instr::WidenAl,
    ensures
        step(program, m) == Some(widened(m)),
{
}

/// Three steps in a row are a run of three.
pub proof fn lemma_run_three(program: Seq<Instr>, m: Machine, m1: Machine, m2: Machine, m3: Machine)
    requires
        step(program, m) == Some(m1),
        step(program, m1) == Some(m2),
        step(program, m2) == Some(m3),
    ensures
        run(program, m, 3) == Some(m3),
{
    lemma_run_one(program, m);
    lemma_run_one(program, m1);
    lemma_run_one(program, m2);
    lemma_run_split(program, m, 1, 1);
    lemma_run_split(program, m, 2, 1);
}

/// The three instructions of a comparison leave 1 in the accumulator if the comparison
/// holds and 0 if not.
pub proof fn lemma_comparison_computes(op: BinaryOp, program: Seq<Instr>, at: int, m: Machine)
    requires
        op is Equal || op is Less || op is Greater,
        holds_at(program, operator_instrs(op).unwrap(), at),
        m.pc == at,
    ensures
        computed(m, run(program, m, 3), at + 3, apply_binary(op, m.rax, m.rcx).unwrap()),
        same_slots(m, run(program, m, 3)),
{
    let ops = operator_instrs(op).unwrap();
    assert(program[at] == ops[0]) by {
        assert(program.subrange(at, at + 3)[0] == program[at]);
    }
    assert(program[at + 1] == ops[1]) by {
        assert(program.subrange(at, at + 3)[1] == program[at + 1]);
    }
    assert(program[at + 2] == ops[2]) by {
        assert(program.subrange(at, at + 3)[2] == program[at + 2]);
    }
    let flag = if op is Equal {
        m.rax == m.rcx
    } else if op is Less {
        m.rax < m.rcx
    } else {
        m.rax > m.rcx
    };
    let m1 = compared(m);
    let m2 = flagged(m1, flag);
    let m3 = widened(m2);
    lemma_step_compare(program, m);
    lemma_step_set(program, m1);
    lemma_step_widen(program, m2);
    lemma_run_three(program, m, m1, m2, m3);
    lemma_flag_widens(m.rax, flag);
}

/// The instructions of an operator compute what the operator denotes, from the left
/// operand in `rax` and the right operand in `rcx`.
pub proof fn lemma_operator_computes(op: BinaryOp, program: Seq<Instr>, at: int, m: Machine)
    requires
        operator_instrs(op) is Some,
        holds_at(program, operator_instrs(op).unwrap(), at),
        m.pc == at,
    ensures
        apply_binary(op, m.rax, m.rcx) is Ok,
        computed(
            m,
            run(program, m, operator_instrs(op).unwrap().len()),
            at + operator_instrs(op).unwrap().len(),
            apply_binary(op, m.rax, m.rcx).unwrap(),
        ),
        same_slots(m, run(program, m, operator_instrs(op).unwrap().len())),
{
    if op is Add || op is Sub || op is Mul {
        lemma_arithmetic_computes(op, program, at, m);
    } else {
        lemma_comparison_computes(op, program, at, m);
    }
}

/// The machine after a push of the accumulator.
pub open spec fn pushed(m: Machine) -> Machine {
    Machine {
        pc: m.pc + 1,
        stack: m.stack.push(m.rax as int),
        slots: slots_after_push(m, m.rax),
        ..m
    }
}

/// The machine after a pop into `rcx`.
pub open spec fn popped(m: Machine) -> Machine {
    Machine { pc: m.pc + 1, rcx: m.stack.last() as i64, stack: m.stack.drop_last(), ..m }
}

/// The code of a binary operation computes its value, if the code of its operands
/// computes theirs: `after_right` is the machine after the right operand, `after_left`
/// the one after the push and the left operand.
pub proof fn lemma_binary_computes(
    op: BinaryOp,
    r: Seq<Instr>,
    l: Seq<Instr>,
    right_cost: nat,
    left_cost: nat,
    right_value: i64,
    left_value: i64,
    program: Seq<Instr>,
    at: int,
    m: Machine,
    after_right: Machine,
    after_left: Machine,
)
    requires
        operator_instrs(op) is Some,
        holds_at(
            program,
            r + seq![Instr::PushRax] + l + seq![Instr::PopRcx] + operator_instrs(op).unwrap(),
            at,
        ),
        m.pc == at,
        m.framed,
        m.stack.len() >= m.frame,
        run(program, m, right_cost) == Some(after_right),
        computed(m, Some(after_right), at + r.len(), right_value),
        run(program, pushed(after_right), left_cost) == Some(after_left),
        computed(pushed(after_right), Some(after_left), at + r.len() + 1 + l.len(), left_value),
    ensures
        apply_binary(op, left_value, right_value) is Ok,
        computed(
            m,
            run(
                program,
                m,
                right_cost + 1 + left_cost + 1 + operator_instrs(op).unwrap().len(),
            ),
            at + (r + seq![Instr::PushRax] + l + seq![Instr::PopRcx] + operator_instrs(
                op,
            ).unwrap()).len(),
            apply_binary(op, left_value, right_value).unwrap(),
        ),
        run(
            program,
            m,
            right_cost + 1 + left_cost + 1 + operator_instrs(op).unwrap().len(),
        ).unwrap().slots == after_left.slots,
{
    let ops = operator_instrs(op).unwrap();
    let push = seq![Instr::PushRax];
    let pop = seq![Instr::PopRcx];
    lemma_holds_parts(program, r + push + l + pop, ops, at);
    lemma_holds_parts(program, r + push + l, pop, at);
    lemma_holds_parts(program, r + push, l, at);
    lemma_holds_parts(program, r, push, at);
    lemma_holds_one(program, Instr::PushRax, at + r.len());
    lemma_holds_one(program, Instr::PopRcx, at + r.len() + 1 + l.len());
    assert(step(program, after_right) == Some(pushed(after_right)));
    lemma_run_one(program, after_right);
    let m4 = popped(after_left);
    assert(step(program, after_left) == Some(m4));
    lemma_run_one(program, after_left);
    assert(m4.stack =~= m.stack);
    assert(m4.rcx == right_value);
    lemma_operator_computes(op, program, at + r.len() + 1 + l.len() + 1, m4);
    lemma_run_split(program, m, right_cost, 1);
    lemma_run_split(program, m, right_cost + 1, left_cost);
    lemma_run_split(program, m, right_cost + 1 + left_cost, 1);
    lemma_run_split(program, m, right_cost + 1 + left_cost + 1, ops.len());
}

/// The machine after a test of the accumulator.
pub open spec fn tested(m: Machine) -> Machine {
    Machine { pc: m.pc + 1, zero: m.rax == 0, less: m.rax < 0, ..m }
}

/// The machine after a branch or a jump to `target`.
pub open spec fn moved(m: Machine, target: int) -> Machine {
    Machine { pc: target, ..m }
}

/// Where the pieces of the code of a conditional stand, and that its branches land
/// where they must: after the test, a condition of zero goes to the false branch and
/// any other to the true branch; after the true branch the jump goes behind the false
/// branch.
pub proof fn lemma_conditional_branches(
    c: Seq<Instr>,
    t: Seq<Instr>,
    f: Seq<Instr>,
    program: Seq<Instr>,
    at: int,
    m: Machine,
)
    requires
        assemble(t).len() + 5 <= i32::MAX,
        assemble(f).len() <= i32::MAX,
        holds_at(
            program,
            c + seq![Instr::TestRax, Instr::JumpIfZero((assemble(t).len() + 5) as i32)] + t
                + seq![Instr::Jump(assemble(f).len() as i32)] + f,
            at,
        ),
        m.pc == at + c.len(),
    ensures
        holds_at(program, c, at),
        holds_at(program, t, at + c.len() + 2),
        holds_at(program, f, at + c.len() + 2 + t.len() + 1),
        run(program, m, 2) == Some(
            moved(
                tested(m),
                if m.rax == 0 {
                    at + c.len() + 2 + t.len() + 1
                } else {
                    at + c.len() + 2
                },
            ),
        ),
        forall|n: Machine|
            n.pc == at + c.len() + 2 + t.len() ==> #[trigger] run(program, n, 1) == Some(
                moved(n, at + c.len() + 2 + t.len() + 1 + f.len()),
            ),
{
    let skip_true = (assemble(t).len() + 5) as i32;
    let skip_false = assemble(f).len() as i32;
    let head = seq![Instr::TestRax, Instr::JumpIfZero(skip_true)];
    let jump = seq![Instr::Jump(skip_false)];
    lemma_holds_parts(program, c + head + t + jump, f, at);
    lemma_holds_parts(program, c + head + t, jump, at);
    lemma_holds_parts(program, c + head, t, at);
    lemma_holds_parts(program, c, head, at);
    let test_at = at + c.len();
    let branch_at = test_at + 1;
    let true_at = branch_at + 1;
    let jump_at = true_at + t.len();
    let false_at = jump_at + 1;
    let end = false_at + f.len();
    assert(program[test_at] == Instr::TestRax) by {
        assert(program.subrange(test_at, test_at + 2)[0] == program[test_at]);
    }
    assert(program[branch_at] == Instr::JumpIfZero(skip_true)) by {
        assert(program.subrange(test_at, test_at + 2)[1] == program[branch_at]);
    }
    lemma_holds_one(program, Instr::Jump(skip_false), jump_at);
    // The branch over the true branch and the jump.
    lemma_offset_between(program, true_at, false_at);
    assert(program.subrange(true_at, false_at) =~= t + jump);
    lemma_assemble_concat(t, jump);
    crate::codegen::lemma_assemble_one(Instr::Jump(skip_false));
    lemma_branch_target(program, branch_at, skip_true as int, false_at);
    // The jump over the false branch.
    lemma_offset_between(program, false_at, end);
    lemma_branch_target(program, jump_at, skip_false as int, end);
    assert(step(program, m) == Some(tested(m)));
    assert(step(program, tested(m)) == Some(
        moved(
            tested(m),
            if m.rax == 0 {
                false_at
            } else {
                true_at
            },
        ),
    ));
    lemma_run_one(program, m);
    lemma_run_one(program, tested(m));
    lemma_run_split(program, m, 1, 1);
    assert forall|n: Machine| n.pc == jump_at implies #[trigger] run(program, n, 1) == Some(
        moved(n, end),
    ) by {
        lemma_run_one(program, n);
    }
}

/// Whether `full` begins with the names of `layout`.
pub open spec fn starts_with(full: Seq<Seq<char>>, layout: Seq<Seq<char>>) -> bool {
    &&& layout.len() <= full.len()
    &&& forall|i: int| 0 <= i < layout.len() ==> #[trigger] full[i] == layout[i]
}

/// Lowering keeps the slots that are handed out and adds new ones behind them; it
/// keeps the names distinct and within the number of slots that a frame can address.
pub proof fn lemma_layout_grows(e: Expr, layout: Seq<Seq<char>>)
    requires
        lower(e, layout) is Ok,
    ensures
        starts_with(lower(e, layout).unwrap().layout, layout),
        distinct(layout) ==> distinct(lower(e, layout).unwrap().layout),
        layout.len() <= MAX_SLOTS ==> lower(e, layout).unwrap().layout.len() <= MAX_SLOTS,
    decreases e,
{
    match e {
        Expr::Binary { left, op, right } => {
            lemma_layout_grows(*right, layout);
            lemma_layout_grows(*left, lower(*right, layout).unwrap().layout);
        },
        Expr::Assignment { name, value } => {
            lemma_layout_grows(*value, layout);
            let v = lower(*value, layout).unwrap().layout;
            if position(v, name@) is None {
                assert(!v.contains(name@));
                let grown = v.push(name@);
                assert forall|i: int, j: int| 0 <= i < j < grown.len() && distinct(
                    v,
                ) implies grown[i] != grown[j] by {
                    if j == v.len() {
                        assert(v[i] != name@);
                    }
                }
            }
        },
        Expr::If { condition, true_expr, false_expr } => {
            lemma_layout_grows(*condition, layout);
            let c = lower(*condition, layout).unwrap().layout;
            lemma_layout_grows(*true_expr, c);
            lemma_layout_grows(*false_expr, lower(*true_expr, c).unwrap().layout);
        },
        _ => {},
    }
}

/// The slot of a name that a layout holds is the slot of that name in every layout that
/// begins with it.
pub proof fn lemma_position_stays(layout: Seq<Seq<char>>, full: Seq<Seq<char>>, name: Seq<char>)
    requires
        starts_with(full, layout),
        position(layout, name) is Some,
    ensures
        0 <= position(layout, name).unwrap() < layout.len(),
        full[position(layout, name).unwrap()] == name,
{
    assert(layout.contains(name));
    let i = layout.index_of(name);
    assert(0 <= i < layout.len() && layout[i] == name);
}

/// The code of an expression that assigns no variable is not exposed where no variable
/// has a slot.
pub proof fn lemma_unexposed(e: Expr)
    requires
        !assigns(e),
    ensures
        !exposed(e, false),
    decreases e,
{
    match e {
        Expr::Assignment { name, value } => {},
        Expr::If { condition, true_expr, false_expr } => {
            lemma_unexposed(*condition);
            lemma_unexposed(*true_expr);
            lemma_unexposed(*false_expr);
        },
        _ => {},
    }
}

/// Whether the code is exposed does not lessen where a slot is in use.
pub proof fn lemma_exposed_grows(e: Expr)
    requires
        exposed(e, false),
    ensures
        exposed(e, true),
    decreases e,
{
    match e {
        Expr::Assignment { name, value } => {
            lemma_exposed_grows(*value);
        },
        Expr::If { condition, true_expr, false_expr } => {
            if exposed(*condition, false) {
                lemma_exposed_grows(*condition);
            } else if exposed(*true_expr, false) {
                lemma_exposed_grows(*true_expr);
            } else if exposed(*false_expr, false) {
                lemma_exposed_grows(*false_expr);
            }
        },
        _ => {},
    }
}

/// An expression that assigns a given variable holds an assignment.
pub proof fn lemma_assigns_some(e: Expr, n: Seq<char>)
    requires
        assigns_name(e, n),
    ensures
        assigns(e),
    decreases e,
{
    match e {
        Expr::Binary { left, op, right } => {
            if assigns_name(*left, n) {
                lemma_assigns_some(*left, n);
            } else {
                lemma_assigns_some(*right, n);
            }
        },
        Expr::If { condition, true_expr, false_expr } => {
            if assigns_name(*condition, n) {
                lemma_assigns_some(*condition, n);
            } else if assigns_name(*true_expr, n) {
                lemma_assigns_some(*true_expr, n);
            } else {
                lemma_assigns_some(*false_expr, n);
            }
        },
        _ => {},
    }
}

/// Whether the bindings bind a variable of the function, so that its slot is in use.
pub open spec fn binds_some(env: Map<Seq<char>, i64>, full: Seq<Seq<char>>) -> bool {
    exists|i: int| 0 <= i < full.len() && env.contains_key(#[trigger] full[i])
}

/// An evaluation binds a variable of the function only where one was bound before or the
/// expression holds an assignment.
pub proof fn lemma_bound_by_assignment(e: Expr, env: Map<Seq<char>, i64>, full: Seq<Seq<char>>)
    requires
        call_free(e),
        binds_some(eval(e, env).env, full),
    ensures
        binds_some(env, full) || assigns(e),
{
    let i = choose|i: int| 0 <= i < full.len() && eval(e, env).env.contains_key(#[trigger] full[i]);
    if assigns_name(e, full[i]) {
        lemma_assigns_some(e, full[i]);
    } else {
        lemma_unassigned_stays(e, env, full[i]);
        assert(env.contains_key(full[i]));
    }
}

/// Whether the slots hold what the bindings say: the slot of every name that is bound
/// holds the value bound to it.
pub open spec fn agrees(slots: Seq<i64>, full: Seq<Seq<char>>, env: Map<Seq<char>, i64>) -> bool {
    forall|i: int|
        0 <= i < full.len() && env.contains_key(#[trigger] full[i]) ==> i < slots.len()
            && slots[i] == env[full[i]]
}

/// A machine that is ready for the code of an expression: it stands in a function that
/// has set its frame base, its stack pointer is not above the frame, it knows a slot for
/// each name of `full`, and its slots hold what the bindings `env` say.
pub open spec fn is_ready(m: Machine, full: Seq<Seq<char>>, env: Map<Seq<char>, i64>) -> bool {
    &&& m.framed
    &&& m.stack.len() >= m.frame
    &&& full.len() <= m.slots.len()
    &&& distinct(full)
    &&& full.len() <= MAX_SLOTS
    &&& agrees(m.slots, full, env)
}

/// Whether the code of `e` finds its slots safe on the machine `m`, under the bindings
/// `env`. It does in a reserved frame. In a frame that is not reserved it does where no
/// push reaches a slot in use and no store an operand: the code is not exposed, given
/// whether the bindings have a slot in use, and it stores only while no operand lies on
/// the stack.
pub open spec fn reaches_safely(
    m: Machine,
    e: Expr,
    full: Seq<Seq<char>>,
    env: Map<Seq<char>, i64>,
) -> bool {
    m.reserved || {
        &&& !exposed(e, binds_some(env, full))
        &&& depth(m) == 0 || !assigns(e)
    }
}

/// Whether `after` is what the code of an expression with the outcome `value` and `env`
/// leaves of `before`: the value in the accumulator, the stack and the frame as they
/// were, and the slots holding what the bindings now say.
pub open spec fn evaluated(
    before: Machine,
    after: Option<Machine>,
    end: int,
    value: i64,
    full: Seq<Seq<char>>,
    env: Map<Seq<char>, i64>,
) -> bool {
    &&& computed(before, after, end, value)
    &&& agrees(after.unwrap().slots, full, env)
}

/// The code of a literal loads it.
pub proof fn lemma_literal_computes(n: i64, program: Seq<Instr>, at: int, m: Machine)
    requires
        holds_at(program, seq![Instr::LoadImmediate(n)], at),
        m.pc == at,
    ensures
        computed(m, run(program, m, 1), at + 1, n),
        same_slots(m, run(program, m, 1)),
{
    lemma_holds_one(program, Instr::LoadImmediate(n), at);
    lemma_run_one(program, m);
}

/// The code of a variable loads its slot.
pub proof fn lemma_load_computes(i: int, program: Seq<Instr>, at: int, m: Machine)
    requires
        0 <= i < m.slots.len(),
        i < MAX_SLOTS,
        holds_at(program, seq![Instr::LoadSlot(slot_offset(i) as i32)], at),
        m.pc == at,
    ensures
        computed(m, run(program, m, 1), at + 1, m.slots[i]),
        same_slots(m, run(program, m, 1)),
{
    lemma_holds_one(program, Instr::LoadSlot(slot_offset(i) as i32), at);
    lemma_run_one(program, m);
    assert(slot_index(slot_offset(i)) == i);
}

/// The store of an assignment writes the accumulator to the slot.
pub proof fn lemma_store_computes(i: int, program: Seq<Instr>, at: int, m: Machine)
    requires
        0 <= i < m.slots.len(),
        i < MAX_SLOTS,
        m.reserved || depth(m) <= 0,
        holds_at(program, seq![Instr::StoreSlot(slot_offset(i) as i32)], at),
        m.pc == at,
    ensures
        computed(m, run(program, m, 1), at + 1, m.rax),
        run(program, m, 1).unwrap().slots == m.slots.update(i, m.rax),
{
    lemma_holds_one(program, Instr::StoreSlot(slot_offset(i) as i32), at);
    lemma_run_one(program, m);
    assert(slot_index(slot_offset(i)) == i);
}

/// Equivalence on the processor: generated code computes what the interpreter computes.
///
/// Take any expression that the generator accepts and any bindings under which the
/// interpreter gives it a value. Wherever a program holds the code of the expression, a
/// machine that is ready for it, and on which the code finds its slots safe, runs the
/// code and arrives behind it after the number of steps that is returned, with the value
/// of the expression in the accumulator, the stack and the frame as they were, and the
/// slots holding what the bindings hold after the evaluation.
pub proof fn lemma_code_computes_value(
    e: Expr,
    layout: Seq<Seq<char>>,
    full: Seq<Seq<char>>,
    program: Seq<Instr>,
    at: int,
    m: Machine,
    env: Map<Seq<char>, i64>,
) -> (steps: nat)
    requires
        lower(e, layout) is Ok,
        starts_with(full, lower(e, layout).unwrap().layout),
        holds_at(program, lower(e, layout).unwrap().instrs, at),
        m.pc == at,
        is_ready(m, full, env),
        reaches_safely(m, e, full, env),
        eval(e, env).result is Ok,
    ensures
        evaluated(
            m,
            run(program, m, steps),
            at + lower(e, layout).unwrap().instrs.len(),
            eval(e, env).result.unwrap(),
            full,
            eval(e, env).env,
        ),
    decreases e, 1nat,
{
    lemma_layout_grows(e, layout);
    match e {
        Expr::Number(n) => {
            lemma_literal_computes(n, program, at, m);
            1
        },
        Expr::Variable(name) => {
            lemma_position_stays(layout, full, name@);
            let i = position(layout, name@).unwrap();
            lemma_load_computes(i, program, at, m);
            1
        },
        Expr::Binary { left, op, right } => lemma_binary_computes_value(
            e,
            layout,
            full,
            program,
            at,
            m,
            env,
        ),
        Expr::Assignment { name, value } => {
            let v = lower(*value, layout).unwrap();
            let l = lower(e, layout).unwrap();
            let i = match position(v.layout, name@) {
                Some(i) => i,
                None => v.layout.len() as int,
            };
            if position(v.layout, name@) is Some {
                lemma_position_stays(v.layout, full, name@);
            }
            assert(0 <= i < full.len() && full[i] == name@);
            let store = seq![Instr::StoreSlot(slot_offset(i) as i32)];
            lemma_holds_parts(program, v.instrs, store, at);
            let cost = lemma_code_computes_value(*value, layout, full, program, at, m, env);
            let m1 = run(program, m, cost).unwrap();
            lemma_store_computes(i, program, at + v.instrs.len(), m1);
            lemma_run_split(program, m, cost, 1);
            let m2 = run(program, m1, 1).unwrap();
            let value_env = eval(*value, env).env;
            let x = eval(*value, env).result.unwrap();
            assert(agrees(m2.slots, full, value_env.insert(name@, x))) by {
                assert forall|j: int|
                    0 <= j < full.len() && value_env.insert(name@, x).contains_key(
                        #[trigger] full[j],
                    ) implies j < m2.slots.len() && m2.slots[j] == value_env.insert(
                    name@,
                    x,
                )[full[j]] by {
                    if full[j] == name@ {
                        if j < i {
                            assert(full[j] != full[i]);
                        } else if i < j {
                            assert(full[i] != full[j]);
                        }
                    }
                }
            }
            cost + 1
        },
        Expr::If { condition, true_expr, false_expr } => lemma_conditional_computes_value(
            e,
            layout,
            full,
            program,
            at,
            m,
            env,
        ),
        Expr::FunctionCall { name, args } => 0,
    }
}

/// The case of a binary operation. The code evaluates the right operand first and the
/// interpreter the left one; since the generator refuses operations for which that
/// matters, both arrive at the same values and bindings.
pub proof fn lemma_binary_computes_value(
    e: Expr,
    layout: Seq<Seq<char>>,
    full: Seq<Seq<char>>,
    program: Seq<Instr>,
    at: int,
    m: Machine,
    env: Map<Seq<char>, i64>,
) -> (steps: nat)
    requires
        e is Binary,
        lower(e, layout) is Ok,
        starts_with(full, lower(e, layout).unwrap().layout),
        holds_at(program, lower(e, layout).unwrap().instrs, at),
        m.pc == at,
        is_ready(m, full, env),
        reaches_safely(m, e, full, env),
        eval(e, env).result is Ok,
    ensures
        evaluated(
            m,
            run(program, m, steps),
            at + lower(e, layout).unwrap().instrs.len(),
            eval(e, env).result.unwrap(),
            full,
            eval(e, env).env,
        ),
    decreases e, 0nat,
{
    let left = *e->Binary_left;
    let right = *e->Binary_right;
    let op = e->Binary_op;
    let r = lower(right, layout).unwrap();
    let l = lower(left, r.layout).unwrap();
    let ops = operator_instrs(op).unwrap();
    let push = seq![Instr::PushRax];
    let pop = seq![Instr::PopRcx];
    lemma_layout_grows(right, layout);
    lemma_layout_grows(left, r.layout);
    lemma_holds_parts(program, r.instrs + push + l.instrs + pop, ops, at);
    lemma_holds_parts(program, r.instrs + push + l.instrs, pop, at);
    lemma_holds_parts(program, r.instrs + push, l.instrs, at);
    lemma_holds_parts(program, r.instrs, push, at);
    // The interpreter takes the left operand first, the code the right one.
    lemma_lowered_is_call_free(right, layout);
    lemma_lowered_is_call_free(left, r.layout);
    lemma_operands_commute(left, right, env);
    let right_first = eval(right, env);
    let left_second = eval(left, right_first.env);
    if !m.reserved {
        lemma_unexposed(right);
        lemma_unexposed(left);
        if binds_some(right_first.env, full) {
            lemma_bound_by_assignment(right, env, full);
        }
    }
    let right_cost = lemma_code_computes_value(right, layout, full, program, at, m, env);
    let m1 = run(program, m, right_cost).unwrap();
    assert(is_ready(pushed(m1), full, right_first.env));
    assert(reaches_safely(pushed(m1), left, full, right_first.env));
    let left_cost = lemma_code_computes_value(
        left,
        r.layout,
        full,
        program,
        at + r.instrs.len() + 1,
        pushed(m1),
        right_first.env,
    );
    let m3 = run(program, pushed(m1), left_cost).unwrap();
    lemma_binary_computes(
        op,
        r.instrs,
        l.instrs,
        right_cost,
        left_cost,
        right_first.result.unwrap(),
        left_second.result.unwrap(),
        program,
        at,
        m,
        m1,
        m3,
    );
    right_cost + 1 + left_cost + 1 + ops.len()
}

/// The case of a conditional.
#[verifier::rlimit(60)]
pub proof fn lemma_conditional_computes_value(
    e: Expr,
    layout: Seq<Seq<char>>,
    full: Seq<Seq<char>>,
    program: Seq<Instr>,
    at: int,
    m: Machine,
    env: Map<Seq<char>, i64>,
) -> (steps: nat)
    requires
        e is If,
        lower(e, layout) is Ok,
        starts_with(full, lower(e, layout).unwrap().layout),
        holds_at(program, lower(e, layout).unwrap().instrs, at),
        m.pc == at,
        is_ready(m, full, env),
        reaches_safely(m, e, full, env),
        eval(e, env).result is Ok,
    ensures
        evaluated(
            m,
            run(program, m, steps),
            at + lower(e, layout).unwrap().instrs.len(),
            eval(e, env).result.unwrap(),
            full,
            eval(e, env).env,
        ),
    decreases e, 0nat,
{
    let condition = *e->If_condition;
    let true_expr = *e->If_true_expr;
    let false_expr = *e->If_false_expr;
    let c = lower(condition, layout).unwrap();
    let t = lower(true_expr, c.layout).unwrap();
    let f = lower(false_expr, t.layout).unwrap();
    lemma_layout_grows(condition, layout);
    lemma_layout_grows(true_expr, c.layout);
    lemma_layout_grows(false_expr, t.layout);
    let test_at = at + c.instrs.len();
    lemma_conditional_branches(c.instrs, t.instrs, f.instrs, program, at, moved(m, test_at));
    let decided = eval(condition, env);
    if !m.reserved {
        lemma_lowered_is_call_free(condition, layout);
        if binds_some(decided.env, full) {
            lemma_bound_by_assignment(condition, env, full);
        } else {
            if exposed(true_expr, false) {
                lemma_exposed_grows(true_expr);
            }
            if exposed(false_expr, false) {
                lemma_exposed_grows(false_expr);
            }
        }
    }
    assert(reaches_safely(m, condition, full, env));
    let cost_c = lemma_code_computes_value(condition, layout, full, program, at, m, env);
    let m1 = run(program, m, cost_c).unwrap();
    lemma_conditional_branches(c.instrs, t.instrs, f.instrs, program, at, m1);
    lemma_run_split(program, m, cost_c, 2);
    if decided.result.unwrap() != 0 {
        let m3 = moved(tested(m1), test_at + 2);
        assert(is_ready(m3, full, decided.env));
        assert(reaches_safely(m3, true_expr, full, decided.env));
        let cost_t = lemma_code_computes_value(
            true_expr,
            c.layout,
            full,
            program,
            test_at + 2,
            m3,
            decided.env,
        );
        let m4 = run(program, m3, cost_t).unwrap();
        assert(run(program, m4, 1) == Some(
            moved(m4, test_at + 2 + t.instrs.len() + 1 + f.instrs.len()),
        ));
        lemma_run_split(program, m, cost_c + 2, cost_t);
        lemma_run_split(program, m, cost_c + 2 + cost_t, 1);
        assert(run(program, m, cost_c + 2 + cost_t + 1) == Some(
            moved(m4, test_at + 2 + t.instrs.len() + 1 + f.instrs.len()),
        ));
        cost_c + 2 + cost_t + 1
    } else {
        let m3 = moved(tested(m1), test_at + 2 + t.instrs.len() + 1);
        assert(is_ready(m3, full, decided.env));
        assert(reaches_safely(m3, false_expr, full, decided.env));
        let cost_f = lemma_code_computes_value(
            false_expr,
            t.layout,
            full,
            program,
            test_at + 2 + t.instrs.len() + 1,
            m3,
            decided.env,
        );
        lemma_run_split(program, m, cost_c + 2, cost_f);
        assert(run(program, m, cost_c + 2 + cost_f) == run(program, m3, cost_f));
        cost_c + 2 + cost_f
    }
}

/// The machine that the prologue of a function leaves of `m`: the frame base of the
/// caller pushed, the frame base set behind it, and the first `slots` slots reserved
/// where a number is given.
pub open spec fn entered(m: Machine, reserved: Option<nat>) -> Machine {
    let framed = Machine {
        pc: 2,
        stack: m.stack.push(m.frame),
        frame: (m.stack.len() + 1) as int,
        framed: true,
        slots: m.seed,
        reserved: false,
        ..m
    };
    match reserved {
        Some(slots) => Machine { pc: 3, slots: m.seed.take(slots as int), reserved: true, ..framed },
        None => framed,
    }
}

/// The prologue sets up the frame.
pub proof fn lemma_prologue_enters(program: Seq<Instr>, m: Machine, reserved: Option<nat>)
    requires
        holds_at(program, prologue(reserved), 0),
        m.pc == 0,
        reserved is Some ==> reserved.unwrap() <= m.seed.len() && reserved.unwrap() <= MAX_SLOTS,
    ensures
        run(program, m, prologue(reserved).len()) == Some(entered(m, reserved)),
{
    let p = prologue(reserved);
    assert(program[0] == Instr::PushRbp) by {
        assert(program.subrange(0, p.len() as int)[0] == p[0]);
    }
    assert(program[1] == Instr::MovRbpRsp) by {
        assert(program.subrange(0, p.len() as int)[1] == p[1]);
    }
    let m1 = Machine {
        pc: 1,
        stack: m.stack.push(m.frame),
        slots: if m.reserved {
            m.slots
        } else {
            Seq::empty()
        },
        ..m
    };
    let m2 = entered(m, None);
    assert(step(program, m) == Some(m1));
    assert(step(program, m1) == Some(m2));
    lemma_run_one(program, m);
    lemma_run_one(program, m1);
    lemma_run_split(program, m, 1, 1);
    if reserved is Some {
        let slots = reserved.unwrap();
        assert(program[2] == Instr::ReserveFrame((8 * slots) as i32)) by {
            assert(program.subrange(0, p.len() as int)[2] == p[2]);
        }
        assert(step(program, m2) == Some(entered(m, reserved)));
        lemma_run_one(program, m2);
        lemma_run_split(program, m, 2, 1);
    }
}

/// The epilogue gives up the frame and restores the frame base of the caller.
pub proof fn lemma_epilogue_leaves(program: Seq<Instr>, m: Machine, at: int)
    requires
        holds_at(program, epilogue(), at),
        m.pc == at,
        m.framed,
        0 < m.frame <= m.stack.len(),
    ensures
        run(program, m, 2) is Some,
        run(program, m, 2).unwrap().pc == at + 2,
        program[at + 2] is Ret,
        run(program, m, 2).unwrap().rax == m.rax,
        run(program, m, 2).unwrap().stack == m.stack.take(m.frame - 1),
        run(program, m, 2).unwrap().frame == m.stack[m.frame - 1],
{
    let q = epilogue();
    assert(program[at] == Instr::MovRspRbp) by {
        assert(program.subrange(at, at + 3)[0] == q[0]);
    }
    assert(program[at + 1] == Instr::PopRbp) by {
        assert(program.subrange(at, at + 3)[1] == q[1]);
    }
    assert(program[at + 2] == Instr::Ret) by {
        assert(program.subrange(at, at + 3)[2] == q[2]);
    }
    let m1 = Machine {
        pc: at + 1,
        stack: m.stack.take(m.frame),
        slots: Seq::empty(),
        reserved: false,
        ..m
    };
    assert(step(program, m) == Some(m1));
    let m2 = Machine {
        pc: at + 2,
        frame: m1.stack.last(),
        framed: false,
        stack: m1.stack.drop_last(),
        ..m1
    };
    assert(step(program, m1) == Some(m2));
    assert(m2.stack =~= m.stack.take(m.frame - 1));
    lemma_run_one(program, m);
    lemma_run_one(program, m1);
    lemma_run_split(program, m, 1, 1);
}

/// Whether the function for `e` can be entered with the bindings `env` in its slots. A
/// function that reserves its frame can, whatever is bound. One that does not pushes
/// onto its first slots: it can be entered with bindings that bind none of its
/// variables, and with any bindings where it is not exposed even with a slot in use,
/// as where it holds no binary operation.
pub open spec fn takes_bindings(e: Expr, env: Map<Seq<char>, i64>) -> bool {
    needs_frame(e) || !exposed(
        e,
        binds_some(env, lower(e, Seq::<Seq<char>>::empty()).unwrap().layout),
    )
}

/// Equivalence, for a whole function. Take any expression that the generator accepts
/// and any bindings under which the interpreter gives it a value and with which the
/// function can be entered, the empty bindings among them. Started at its first
/// instruction, with the memory that comes to lie below its frame base holding what the
/// bindings say, the function that the generator makes arrives at its return after the
/// number of steps that is returned, with the interpreter's value in the accumulator and
/// with the stack and the frame base of its caller as they were. This holds of the
/// function that reserves its frame and of the one that does not.
pub proof fn lemma_function_computes_value(e: Expr, env: Map<Seq<char>, i64>, m: Machine) -> (steps:
    nat)
    requires
        lower(e, Seq::<Seq<char>>::empty()) is Ok,
        eval(e, env).result is Ok,
        m.pc == 0,
        m.seed.len() >= lower(e, Seq::<Seq<char>>::empty()).unwrap().layout.len(),
        agrees(m.seed, lower(e, Seq::<Seq<char>>::empty()).unwrap().layout, env),
        takes_bindings(e, env),
    ensures
        ({
            let program = function_of(e, lower(e, Seq::<Seq<char>>::empty()).unwrap());
            let after = run(program, m, steps);
            &&& after is Some
            &&& after.unwrap().pc == program.len() - 1
            &&& program[after.unwrap().pc] is Ret
            &&& eval(e, env).result == Ok::<i64, EvalError>(after.unwrap().rax)
            &&& after.unwrap().stack == m.stack
            &&& after.unwrap().frame == m.frame
        }),
{
    let empty = Seq::<Seq<char>>::empty();
    let l = lower(e, empty).unwrap();
    let full = l.layout;
    let reserved = reserved_slots(e, l);
    let head = prologue(reserved);
    let program = function_of(e, l);
    let start = head.len();
    lemma_layout_grows(e, empty);
    assert(program =~= head + (l.instrs + epilogue()));
    lemma_holds_whole(program);
    lemma_holds_parts(program, head, l.instrs + epilogue(), 0);
    lemma_holds_parts(program, l.instrs, epilogue(), start as int);
    // The prologue.
    lemma_prologue_enters(program, m, reserved);
    let m1 = entered(m, reserved);
    assert(is_ready(m1, full, env));
    assert(reaches_safely(m1, e, full, env));
    // The body.
    let cost = lemma_code_computes_value(e, empty, full, program, start as int, m1, env);
    let m2 = run(program, m1, cost).unwrap();
    lemma_run_split(program, m, start, cost);
    // The epilogue.
    lemma_epilogue_leaves(program, m2, (start + l.instrs.len()) as int);
    lemma_run_split(program, m, start + cost, 2);
    assert(m1.stack.take(m1.frame - 1) =~= m.stack);
    start + cost + 2
}

/// A program holds itself from its first instruction on.
pub proof fn lemma_holds_whole(program: Seq<Instr>)
    ensures
        holds_at(program, program, 0),
{
    assert(program.subrange(0, program.len() as int) =~= program);
}

/// Equivalence, from nothing: for every expression that the generator accepts and the
/// interpreter gives a value under the empty bindings, the generated function returns
/// that value, whatever memory holds at the start.
pub proof fn lemma_function_computes_value_from_nothing(e: Expr, m: Machine) -> (steps: nat)
    requires
        lower(e, Seq::<Seq<char>>::empty()) is Ok,
        eval(e, Map::<Seq<char>, i64>::empty()).result is Ok,
        m.pc == 0,
        m.seed.len() >= lower(e, Seq::<Seq<char>>::empty()).unwrap().layout.len(),
    ensures
        ({
            let program = function_of(e, lower(e, Seq::<Seq<char>>::empty()).unwrap());
            let after = run(program, m, steps);
            &&& after is Some
            &&& program[after.unwrap().pc] is Ret
            &&& eval(e, Map::<Seq<char>, i64>::empty()).result == Ok::<i64, EvalError>(
                after.unwrap().rax,
            )
            &&& after.unwrap().stack == m.stack
            &&& after.unwrap().frame == m.frame
        }),
{
    lemma_function_computes_value(e, Map::<Seq<char>, i64>::empty(), m)
}

} // verus!
