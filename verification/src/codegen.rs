//! The native code generator: from an expression to x86-64 machine code.
//!
//! The generator lowers an expression to a sequence of instructions and emits their
//! encodings. The value of every expression ends up in the accumulator `rax`: on the
//! processor that `machine` models, the code of every expression that the generator
//! accepts computes what the interpreter computes.
//!
//! What the code could not compute as the interpreter does is refused, so that such an
//! expression stays interpreted: function calls; division and remainder, for which the
//! processor faults where the interpreter reports an error or wraps around; and
//! operations of which one operand assigns a variable that the other reads or assigns,
//! whose value may depend on which operand is evaluated first.
//!
//! A function begins with `push rbp; mov rbp, rsp` and ends with
//! `mov rsp, rbp; pop rbp; ret`. Its variables live in slots below the frame base. Where
//! an operand could be pushed onto a slot that is in use, the function reserves the
//! slots with `sub rsp`, so that no push lands on one.

use crate::ast::{BinaryOp, Expr};
use crate::layout::{position, slot_offset, VariableLayout, MAX_SLOTS};
use crate::stack::{is_stack_balanced, lemma_generated_bytes_are_stack_balanced};
use crate::text::same_text;
use vstd::prelude::*;

verus! {

/// The general-purpose registers, in the order of their hardware numbers.
#[derive(Debug, Clone, Copy, PartialEq, Eq, Structural)]
pub enum Register {
    /// Return value and accumulator.
    Rax,
    /// Counter; holds the right operand.
    Rcx,
    /// Data.
    Rdx,
    /// Base.
    Rbx,
    /// Stack pointer.
    Rsp,
    /// Frame pointer.
    Rbp,
    /// Source index.
    Rsi,
    /// Destination index.
    Rdi,
}

impl Register {
    /// The register's hardware number.
    pub open spec fn spec_number(self) -> u8 {
        match self {
            Register::Rax => 0,
            Register::Rcx => 1,
            Register::Rdx => 2,
            Register::Rbx => 3,
            Register::Rsp => 4,
            Register::Rbp => 5,
            Register::Rsi => 6,
            Register::Rdi => 7,
        }
    }

    /// The register's hardware number.
    #[verifier::when_used_as_spec(spec_number)]
    pub fn number(self) -> (n: u8)
        ensures
            n == self.spec_number(),
    {
        match self {
            Register::Rax => 0,
            Register::Rcx => 1,
            Register::Rdx => 2,
            Register::Rbx => 3,
            Register::Rsp => 4,
            Register::Rbp => 5,
            Register::Rsi => 6,
            Register::Rdi => 7,
        }
    }
}

/// The instructions that the generator emits.
pub enum Instr {
    /// `push rbp`
    PushRbp,
    /// `mov rbp, rsp`
    MovRbpRsp,
    /// `mov rsp, rbp`
    MovRspRbp,
    /// `pop rbp`
    PopRbp,
    /// `ret`
    Ret,
    /// `sub rsp, imm32`: reserves the frame below the frame base, so that no push
    /// reaches a slot.
    ReserveFrame(i32),
    /// `mov eax, imm32` for a value from 0 to 127, which the processor extends with
    /// zeros; `mov rax, imm64` for every other value.
    LoadImmediate(i64),
    /// `mov rax, [rbp + offset]`
    LoadSlot(i32),
    /// `mov [rbp + offset], rax`
    StoreSlot(i32),
    /// `push rax`
    PushRax,
    /// `pop rcx`
    PopRcx,
    /// `add rax, rcx`
    AddRaxRcx,
    /// `sub rax, rcx`
    SubRaxRcx,
    /// `mul rcx`
    MulRcx,
    /// `test rax, rax`
    TestRax,
    /// `cmp rax, rcx`
    CompareRaxRcx,
    /// `sete al`
    SetEqual,
    /// `setl al`
    SetLess,
    /// `setg al`
    SetGreater,
    /// `movzx rax, al`
    WidenAl,
    /// `jz rel32`: the displacement counts from the end of the instruction.
    JumpIfZero(i32),
    /// `jmp rel32`: the displacement counts from the end of the instruction.
    Jump(i32),
}

/// The four bytes of `x`, least significant first.
pub open spec fn le32(x: u32) -> Seq<u8> {
    seq![
        (x & 0xff) as u8,
        ((x >> 8) & 0xff) as u8,
        ((x >> 16) & 0xff) as u8,
        ((x >> 24) & 0xff) as u8,
    ]
}

/// The eight bytes of `x`, least significant first.
pub open spec fn le64(x: u64) -> Seq<u8> {
    seq![
        (x & 0xff) as u8,
        ((x >> 8) & 0xff) as u8,
        ((x >> 16) & 0xff) as u8,
        ((x >> 24) & 0xff) as u8,
        ((x >> 32) & 0xff) as u8,
        ((x >> 40) & 0xff) as u8,
        ((x >> 48) & 0xff) as u8,
        ((x >> 56) & 0xff) as u8,
    ]
}

/// Whether a displacement fits the one-byte form, which the processor extends with
/// its sign.
pub open spec fn fits_byte(v: int) -> bool {
    -128 <= v <= 127
}

/// Whether a literal takes the short form, which the processor extends with zeros.
pub open spec fn fits_short(v: int) -> bool {
    0 <= v <= 127
}

/// The 32 bits that stand for a signed number: the number itself if it is not negative,
/// and its two's complement if it is.
pub open spec fn signed_bits(d: int) -> u32 {
    if d >= 0 {
        d as u32
    } else {
        (d + 0x1_0000_0000) as u32
    }
}

/// The machine code of one instruction.
pub open spec fn encode(i: Instr) -> Seq<u8> {
    match i {
        Instr::PushRbp => seq![0x55u8],
        Instr::MovRbpRsp => seq![0x48u8, 0x89u8, 0xe5u8],
        Instr::MovRspRbp => seq![0x48u8, 0x89u8, 0xecu8],
        Instr::PopRbp => seq![0x5du8],
        Instr::Ret => seq![0xc3u8],
        Instr::ReserveFrame(size) => seq![0x48u8, 0x81u8, 0xecu8] + le32(signed_bits(size as int)),
        Instr::LoadImmediate(v) => if fits_short(v as int) {
            seq![0xb8u8] + le32(v as u32)
        } else {
            seq![0x48u8, 0xb8u8] + le64(v as u64)
        },
        Instr::LoadSlot(offset) => if fits_byte(offset as int) {
            seq![0x48u8, 0x8bu8, 0x45u8, offset as u8]
        } else {
            seq![0x48u8, 0x8bu8, 0x85u8] + le32(offset as u32)
        },
        Instr::StoreSlot(offset) => if fits_byte(offset as int) {
            seq![0x48u8, 0x89u8, 0x45u8, offset as u8]
        } else {
            seq![0x48u8, 0x89u8, 0x85u8] + le32(offset as u32)
        },
        Instr::PushRax => seq![0x50u8],
        Instr::PopRcx => seq![0x59u8],
        Instr::AddRaxRcx => seq![0x48u8, 0x01u8, 0xc8u8],
        Instr::SubRaxRcx => seq![0x48u8, 0x29u8, 0xc8u8],
        Instr::MulRcx => seq![0x48u8, 0xf7u8, 0xe1u8],
        Instr::TestRax => seq![0x48u8, 0x85u8, 0xc0u8],
        Instr::CompareRaxRcx => seq![0x48u8, 0x39u8, 0xc8u8],
        Instr::SetEqual => seq![0x0fu8, 0x94u8, 0xc0u8],
        Instr::SetLess => seq![0x0fu8, 0x9cu8, 0xc0u8],
        Instr::SetGreater => seq![0x0fu8, 0x9fu8, 0xc0u8],
        Instr::WidenAl => seq![0x48u8, 0x0fu8, 0xb6u8, 0xc0u8],
        Instr::JumpIfZero(d) => seq![0x0fu8, 0x84u8] + le32(signed_bits(d as int)),
        Instr::Jump(d) => seq![0xe9u8] + le32(signed_bits(d as int)),
    }
}

/// The machine code of a sequence of instructions: their encodings one after another.
pub open spec fn assemble(instrs: Seq<Instr>) -> Seq<u8>
    decreases instrs.len(),
{
    if instrs.len() == 0 {
        Seq::empty()
    } else {
        assemble(instrs.drop_last()) + encode(instrs.last())
    }
}

/// The machine code of two sequences in a row is the code of the first, then that of the
/// second.
pub proof fn lemma_assemble_concat(a: Seq<Instr>, b: Seq<Instr>)
    ensures
        assemble(a + b) == assemble(a) + assemble(b),
    decreases b.len(),
{
    if b.len() == 0 {
        assert(a + b =~= a);
        assert(assemble(a) + assemble(b) =~= assemble(a));
    } else {
        assert((a + b).drop_last() =~= a + b.drop_last());
        assert((a + b).last() == b.last());
        lemma_assemble_concat(a, b.drop_last());
        assert(assemble(a + b) =~= assemble(a) + assemble(b));
    }
}

/// The machine code of a single instruction is its encoding.
pub proof fn lemma_assemble_one(i: Instr)
    ensures
        assemble(seq![i]) == encode(i),
{
    reveal_with_fuel(assemble, 2);
    assert(seq![i].drop_last() =~= Seq::<Instr>::empty());
    assert(seq![i].last() == i);
    assert(assemble(seq![i]) =~= encode(i));
}

/// The instructions that establish the frame, and reserve `reserved` slots where a
/// number of slots is given.
pub open spec fn prologue(reserved: Option<nat>) -> Seq<Instr> {
    match reserved {
        Some(slots) => seq![
            Instr::PushRbp,
            Instr::MovRbpRsp,
            Instr::ReserveFrame((8 * slots) as i32),
        ],
        None => seq![Instr::PushRbp, Instr::MovRbpRsp],
    }
}

/// The instructions that tear the frame down and return.
pub open spec fn epilogue() -> Seq<Instr> {
    seq![Instr::MovRspRbp, Instr::PopRbp, Instr::Ret]
}

/// The instructions that apply `op` to the left operand in `rax` and the right operand in
/// `rcx`, for the operators that the generator supports. A comparison sets a flag and
/// widens it to the whole accumulator, so that the result is exactly 0 or 1. Division
/// and remainder are not among them: the processor faults where the interpreter reports
/// a division by zero or wraps around, so that an expression that divides stays
/// interpreted.
pub open spec fn operator_instrs(op: BinaryOp) -> Option<Seq<Instr>> {
    match op {
        BinaryOp::Add => Some(seq![Instr::AddRaxRcx]),
        BinaryOp::Sub => Some(seq![Instr::SubRaxRcx]),
        BinaryOp::Mul => Some(seq![Instr::MulRcx]),
        BinaryOp::Equal => Some(seq![Instr::CompareRaxRcx, Instr::SetEqual, Instr::WidenAl]),
        BinaryOp::Less => Some(seq![Instr::CompareRaxRcx, Instr::SetLess, Instr::WidenAl]),
        BinaryOp::Greater => Some(seq![Instr::CompareRaxRcx, Instr::SetGreater, Instr::WidenAl]),
        _ => None,
    }
}

/// Why no code was generated.
#[derive(Debug, PartialEq, Eq)]
pub enum CodeGenError {
    /// A variable is read that the expression has not written before.
    UndefinedVariable(String),
    /// The generator has no instructions for the operator.
    UnsupportedOperation(BinaryOp),
    /// The expression is a function call.
    UnsupportedExpression,
    /// The frame has no slot left for another variable.
    TooManyVariables,
    /// A branch would have to jump farther than a 32-bit displacement reaches.
    BranchTooFar,
    /// One operand of an operation assigns a variable that the other operand reads or
    /// assigns: the code evaluates the right operand first and the interpreter the left
    /// one, so that the two could disagree.
    OrderDependent,
}

/// What an expression is lowered to: its instructions, and the layout after it.
pub struct Lowered {
    pub instrs: Seq<Instr>,
    pub layout: Seq<Seq<char>>,
}

/// Whether an expression assigns the variable `n`. What a function call holds does not
/// count: no code is generated for an expression with a call.
pub open spec fn assigns_name(e: Expr, n: Seq<char>) -> bool
    decreases e,
{
    match e {
        Expr::Number(_) => false,
        Expr::Variable(_) => false,
        Expr::Binary { left, op, right } => assigns_name(*left, n) || assigns_name(*right, n),
        Expr::Assignment { name, value } => name@ == n || assigns_name(*value, n),
        Expr::FunctionCall { name, args } => false,
        Expr::If { condition, true_expr, false_expr } => assigns_name(*condition, n)
            || assigns_name(*true_expr, n) || assigns_name(*false_expr, n),
    }
}

/// Whether an expression reads or assigns the variable `n`.
pub open spec fn mentions_name(e: Expr, n: Seq<char>) -> bool
    decreases e,
{
    match e {
        Expr::Number(_) => false,
        Expr::Variable(name) => name@ == n,
        Expr::Binary { left, op, right } => mentions_name(*left, n) || mentions_name(*right, n),
        Expr::Assignment { name, value } => name@ == n || mentions_name(*value, n),
        Expr::FunctionCall { name, args } => false,
        Expr::If { condition, true_expr, false_expr } => mentions_name(*condition, n)
            || mentions_name(*true_expr, n) || mentions_name(*false_expr, n),
    }
}

/// Whether `first` assigns a variable that `second` reads or assigns.
pub open spec fn collides(first: Expr, second: Expr) -> bool {
    exists|n: Seq<char>| assigns_name(first, n) && mentions_name(second, n)
}

/// Whether the outcome of `left op right` may depend on which operand is evaluated
/// first: one of them assigns a variable that the other reads or assigns.
pub open spec fn order_matters(left: Expr, right: Expr) -> bool {
    collides(left, right) || collides(right, left)
}

/// Whether an expression holds an assignment.
pub open spec fn assigns(e: Expr) -> bool
    decreases e,
{
    match e {
        Expr::Number(_) => false,
        Expr::Variable(_) => false,
        Expr::Binary { left, op, right } => assigns(*left) || assigns(*right),
        Expr::Assignment { name, value } => true,
        Expr::FunctionCall { name, args } => false,
        Expr::If { condition, true_expr, false_expr } => assigns(*condition) || assigns(
            *true_expr,
        ) || assigns(*false_expr),
    }
}

/// Whether, without a reserved frame, the code of `e` could push an operand onto a slot
/// that is in use, or store to a slot while an operand lies on it. `used` says whether a
/// slot may be in use when the code of `e` begins.
///
/// The slots lie where the first pushes land. A binary operation is exposed where a
/// slot may be in use already, and where one of its operands assigns a variable. In a
/// conditional, what the condition assigns is in use in both branches.
pub open spec fn exposed(e: Expr, used: bool) -> bool
    decreases e,
{
    match e {
        Expr::Number(_) => false,
        Expr::Variable(_) => false,
        Expr::Binary { left, op, right } => used || assigns(e),
        Expr::Assignment { name, value } => exposed(*value, used),
        Expr::FunctionCall { name, args } => false,
        Expr::If { condition, true_expr, false_expr } => {
            ||| exposed(*condition, used)
            ||| exposed(*true_expr, used || assigns(*condition))
            ||| exposed(*false_expr, used || assigns(*condition))
        },
    }
}

/// Whether the function for an expression reserves its frame: it does where a push
/// could reach a slot that is in use. Every other function stores below a stack pointer
/// that nothing moves while a slot is in use.
pub open spec fn needs_frame(e: Expr) -> bool {
    exposed(e, false)
}

/// The size of the `jmp rel32` that ends the true branch of a conditional.
pub open spec fn jump_size() -> int {
    5
}

/// What `e` is lowered to, where the names of `layout` have slots already.
///
/// A binary operation evaluates its right operand, pushes it, evaluates its left operand
/// and pops the right one into `rcx`; an operation that has code for its operands and
/// its operator is still refused where one operand assigns a variable that the other
/// reads or assigns. An assignment stores into the slot of its name, which it allocates on first
/// write. A conditional tests its condition against zero, branches
/// over the true branch if it is zero, and jumps over the false branch after the true one.
pub open spec fn lower(e: Expr, layout: Seq<Seq<char>>) -> Result<Lowered, CodeGenError>
    decreases e,
{
    match e {
        Expr::Number(n) => Ok(Lowered { instrs: seq![Instr::LoadImmediate(n)], layout }),
        Expr::Variable(name) => match position(layout, name@) {
            Some(i) => Ok(
                Lowered { instrs: seq![Instr::LoadSlot(slot_offset(i) as i32)], layout },
            ),
            None => Err(CodeGenError::UndefinedVariable(name)),
        },
        Expr::Binary { left, op, right } => match lower(*right, layout) {
            Err(e) => Err(e),
            Ok(r) => match lower(*left, r.layout) {
                Err(e) => Err(e),
                Ok(l) => match operator_instrs(op) {
                    None => Err(CodeGenError::UnsupportedOperation(op)),
                    Some(ops) => if order_matters(*left, *right) {
                        Err(CodeGenError::OrderDependent)
                    } else {
                        Ok(
                            Lowered {
                                instrs: r.instrs + seq![Instr::PushRax] + l.instrs + seq![
                                    Instr::PopRcx,
                                ] + ops,
                                layout: l.layout,
                            },
                        )
                    },
                },
            },
        },
        Expr::Assignment { name, value } => match lower(*value, layout) {
            Err(e) => Err(e),
            Ok(v) => match position(v.layout, name@) {
                Some(i) => Ok(
                    Lowered {
                        instrs: v.instrs + seq![Instr::StoreSlot(slot_offset(i) as i32)],
                        layout: v.layout,
                    },
                ),
                None => if v.layout.len() < MAX_SLOTS {
                    Ok(
                        Lowered {
                            instrs: v.instrs + seq![
                                Instr::StoreSlot(slot_offset(v.layout.len() as int) as i32),
                            ],
                            layout: v.layout.push(name@),
                        },
                    )
                } else {
                    Err(CodeGenError::TooManyVariables)
                },
            },
        },
        Expr::If { condition, true_expr, false_expr } => match lower(*condition, layout) {
            Err(e) => Err(e),
            Ok(c) => match lower(*true_expr, c.layout) {
                Err(e) => Err(e),
                Ok(t) => if assemble(t.instrs).len() + jump_size() > i32::MAX {
                    Err(CodeGenError::BranchTooFar)
                } else {
                    match lower(*false_expr, t.layout) {
                        Err(e) => Err(e),
                        Ok(f) => if assemble(f.instrs).len() > i32::MAX {
                            Err(CodeGenError::BranchTooFar)
                        } else {
                            Ok(
                                Lowered {
                                    instrs: c.instrs + seq![
                                        Instr::TestRax,
                                        Instr::JumpIfZero(
                                            (assemble(t.instrs).len() + jump_size()) as i32,
                                        ),
                                    ] + t.instrs + seq![
                                        Instr::Jump(assemble(f.instrs).len() as i32),
                                    ] + f.instrs,
                                    layout: f.layout,
                                },
                            )
                        },
                    }
                },
            },
        },
        Expr::FunctionCall { name, args } => Err(CodeGenError::UnsupportedExpression),
    }
}

/// The instructions of a whole function: prologue, body, epilogue.
pub open spec fn function_instrs(body: Seq<Instr>, reserved: Option<nat>) -> Seq<Instr> {
    prologue(reserved) + body + epilogue()
}

/// The slots that the function for `e` reserves, where it reserves its frame: one for
/// each variable of the layout.
pub open spec fn reserved_slots(e: Expr, l: Lowered) -> Option<nat> {
    if needs_frame(e) {
        Some(l.layout.len())
    } else {
        None
    }
}

/// The instructions of the whole function for the expression `e`, which is lowered to
/// `l`.
pub open spec fn function_of(e: Expr, l: Lowered) -> Seq<Instr> {
    function_instrs(l.instrs, reserved_slots(e, l))
}

/// The machine code of two instructions in a row.
pub proof fn lemma_assemble_two(a: Instr, b: Instr)
    ensures
        assemble(seq![a, b]) == encode(a) + encode(b),
{
    lemma_assemble_one(a);
    lemma_assemble_one(b);
    lemma_assemble_concat(seq![a], seq![b]);
    assert(seq![a] + seq![b] =~= seq![a, b]);
}

/// The machine code of three instructions in a row.
pub proof fn lemma_assemble_three(a: Instr, b: Instr, c: Instr)
    ensures
        assemble(seq![a, b, c]) == encode(a) + encode(b) + encode(c),
{
    lemma_assemble_two(a, b);
    lemma_assemble_one(c);
    lemma_assemble_concat(seq![a, b], seq![c]);
    assert(seq![a, b] + seq![c] =~= seq![a, b, c]);
}

/// The machine code of a binary operation, piece by piece.
pub proof fn lemma_assemble_binary(r: Seq<Instr>, l: Seq<Instr>, ops: Seq<Instr>)
    ensures
        assemble(r + seq![Instr::PushRax] + l + seq![Instr::PopRcx] + ops) == assemble(r)
            + encode(Instr::PushRax) + assemble(l) + encode(Instr::PopRcx) + assemble(ops),
{
    lemma_assemble_one(Instr::PushRax);
    lemma_assemble_one(Instr::PopRcx);
    lemma_assemble_concat(r, seq![Instr::PushRax]);
    lemma_assemble_concat(r + seq![Instr::PushRax], l);
    lemma_assemble_concat(r + seq![Instr::PushRax] + l, seq![Instr::PopRcx]);
    lemma_assemble_concat(r + seq![Instr::PushRax] + l + seq![Instr::PopRcx], ops);
}

/// The machine code of a conditional, piece by piece.
pub proof fn lemma_assemble_conditional(
    c: Seq<Instr>,
    skip_true: i32,
    t: Seq<Instr>,
    skip_false: i32,
    f: Seq<Instr>,
)
    ensures
        assemble(
            c + seq![Instr::TestRax, Instr::JumpIfZero(skip_true)] + t + seq![
                Instr::Jump(skip_false),
            ] + f,
        ) == assemble(c) + encode(Instr::TestRax) + encode(Instr::JumpIfZero(skip_true))
            + assemble(t) + encode(Instr::Jump(skip_false)) + assemble(f),
{
    let head = seq![Instr::TestRax, Instr::JumpIfZero(skip_true)];
    let mid = seq![Instr::Jump(skip_false)];
    lemma_assemble_two(Instr::TestRax, Instr::JumpIfZero(skip_true));
    lemma_assemble_one(Instr::Jump(skip_false));
    lemma_assemble_concat(c, head);
    lemma_assemble_concat(c + head, t);
    lemma_assemble_concat(c + head + t, mid);
    lemma_assemble_concat(c + head + t + mid, f);
    assert(assemble(c) + (encode(Instr::TestRax) + encode(Instr::JumpIfZero(skip_true)))
        =~= assemble(c) + encode(Instr::TestRax) + encode(Instr::JumpIfZero(skip_true)));
}

/// `code` with the bytes from `at` on replaced by `field`.
pub open spec fn patched(code: Seq<u8>, at: int, field: Seq<u8>) -> Seq<u8> {
    code.subrange(0, at) + field + code.subrange(at + field.len(), code.len() as int)
}

/// Patching the placeholder of the branch over the true branch gives the encoded branch.
pub proof fn lemma_patch_branch(head: Seq<u8>, body: Seq<u8>, skip: u32)
    ensures
        patched(
            head + seq![0x0fu8, 0x84u8, 0u8, 0u8, 0u8, 0u8] + body + seq![
                0xe9u8,
                0u8,
                0u8,
                0u8,
                0u8,
            ],
            (head.len() + 2) as int,
            le32(skip),
        ) == head + (seq![0x0fu8, 0x84u8] + le32(skip)) + body + seq![0xe9u8, 0u8, 0u8, 0u8, 0u8],
{
    let before = head + seq![0x0fu8, 0x84u8, 0u8, 0u8, 0u8, 0u8] + body + seq![
        0xe9u8,
        0u8,
        0u8,
        0u8,
        0u8,
    ];
    let after = head + (seq![0x0fu8, 0x84u8] + le32(skip)) + body + seq![
        0xe9u8,
        0u8,
        0u8,
        0u8,
        0u8,
    ];
    assert(patched(before, (head.len() + 2) as int, le32(skip)) =~= after);
}

/// Patching the placeholder of the jump over the false branch gives the encoded jump.
pub proof fn lemma_patch_jump(head: Seq<u8>, body: Seq<u8>, skip: u32)
    ensures
        patched(head + seq![0xe9u8, 0u8, 0u8, 0u8, 0u8] + body, (head.len() + 1) as int, le32(skip))
            == head + (seq![0xe9u8] + le32(skip)) + body,
{
    let before = head + seq![0xe9u8, 0u8, 0u8, 0u8, 0u8] + body;
    let after = head + (seq![0xe9u8] + le32(skip)) + body;
    assert(patched(before, (head.len() + 1) as int, le32(skip)) =~= after);
}

/// Generated machine code, ready to be made executable.
#[derive(Debug, Clone)]
pub struct CompiledFunction {
    /// The instruction bytes.
    pub code: Vec<u8>,
    /// The offset of the first instruction.
    pub entry_point: usize,
    /// Where each variable lives in the frame.
    pub variables: VariableLayout,
}

/// What a compiled function is, as plain values.
pub struct ArtifactView {
    pub code: Seq<u8>,
    pub entry_point: usize,
    pub layout: Seq<Seq<char>>,
}

impl View for CompiledFunction {
    type V = ArtifactView;

    open spec fn view(&self) -> ArtifactView {
        ArtifactView { code: self.code@, entry_point: self.entry_point, layout: self.variables@ }
    }
}

/// The code generator. It holds the code and the layout of the function in the making.
pub struct X86CodeGenerator {
    code: Vec<u8>,
    variables: VariableLayout,
}

/// Appends the four bytes of `x`, least significant first.
fn push_le32(code: &mut Vec<u8>, x: u32)
    ensures
        final(code)@ == old(code)@ + le32(x),
{
    code.push((x & 0xff) as u8);
    code.push(((x >> 8) & 0xff) as u8);
    code.push(((x >> 16) & 0xff) as u8);
    code.push(((x >> 24) & 0xff) as u8);
    assert(code@ =~= old(code)@ + le32(x));
}

/// Appends the eight bytes of `x`, least significant first.
fn push_le64(code: &mut Vec<u8>, x: u64)
    ensures
        final(code)@ == old(code)@ + le64(x),
{
    code.push((x & 0xff) as u8);
    code.push(((x >> 8) & 0xff) as u8);
    code.push(((x >> 16) & 0xff) as u8);
    code.push(((x >> 24) & 0xff) as u8);
    code.push(((x >> 32) & 0xff) as u8);
    code.push(((x >> 40) & 0xff) as u8);
    code.push(((x >> 48) & 0xff) as u8);
    code.push(((x >> 56) & 0xff) as u8);
    assert(code@ =~= old(code)@ + le64(x));
}

/// Appends one byte.
fn push1(code: &mut Vec<u8>, a: u8)
    ensures
        final(code)@ == old(code)@ + seq![a],
{
    code.push(a);
    assert(code@ =~= old(code)@ + seq![a]);
}

/// Appends two bytes.
fn push2(code: &mut Vec<u8>, a: u8, b: u8)
    ensures
        final(code)@ == old(code)@ + seq![a, b],
{
    code.push(a);
    code.push(b);
    assert(code@ =~= old(code)@ + seq![a, b]);
}

/// Appends three bytes.
fn push3(code: &mut Vec<u8>, a: u8, b: u8, c: u8)
    ensures
        final(code)@ == old(code)@ + seq![a, b, c],
{
    code.push(a);
    code.push(b);
    code.push(c);
    assert(code@ =~= old(code)@ + seq![a, b, c]);
}

/// Appends four bytes.
fn push4(code: &mut Vec<u8>, a: u8, b: u8, c: u8, d: u8)
    ensures
        final(code)@ == old(code)@ + seq![a, b, c, d],
{
    code.push(a);
    code.push(b);
    code.push(c);
    code.push(d);
    assert(code@ =~= old(code)@ + seq![a, b, c, d]);
}

impl X86CodeGenerator {
    /// The code emitted so far for the function in the making.
    pub closed spec fn pending_code(&self) -> Seq<u8> {
        self.code@
    }

    /// The variables allocated so far for the function in the making.
    pub closed spec fn pending_layout(&self) -> Seq<Seq<char>> {
        self.variables@
    }

    /// A generator with no code and no variables.
    pub fn new() -> (generator: X86CodeGenerator)
        ensures
            generator.pending_code() == Seq::<u8>::empty(),
            generator.pending_layout() == Seq::<Seq<char>>::empty(),
    {
        X86CodeGenerator { code: Vec::new(), variables: VariableLayout::new() }
    }

    /// `push rbp; mov rbp, rsp`
    fn emit_prologue(&mut self)
        ensures
            final(self).code@ == old(self).code@ + assemble(prologue(None)),
            final(self).variables == old(self).variables,
    {
        push1(&mut self.code, 0x55);
        push3(&mut self.code, 0x48, 0x89, 0xe5);
        proof {
            lemma_assemble_two(Instr::PushRbp, Instr::MovRbpRsp);
            assert(self.code@ =~= old(self).code@ + assemble(prologue(None)));
        }
    }

    /// `sub rsp, 0`, the size of the frame to be patched. Returns the position of the
    /// size.
    fn emit_reserve_placeholder(&mut self) -> (pos: usize)
        ensures
            final(self).code@ == old(self).code@ + seq![
                0x48u8,
                0x81u8,
                0xecu8,
                0u8,
                0u8,
                0u8,
                0u8,
            ],
            pos == old(self).code@.len() + 3,
            final(self).variables == old(self).variables,
    {
        push3(&mut self.code, 0x48, 0x81, 0xec);
        let pos = self.code.len();
        push4(&mut self.code, 0, 0, 0, 0);
        assert(self.code@ =~= old(self).code@ + seq![
            0x48u8,
            0x81u8,
            0xecu8,
            0u8,
            0u8,
            0u8,
            0u8,
        ]);
        pos
    }

    /// `mov rsp, rbp; pop rbp; ret`
    fn emit_epilogue(&mut self)
        ensures
            final(self).code@ == old(self).code@ + assemble(epilogue()),
            final(self).variables == old(self).variables,
    {
        push3(&mut self.code, 0x48, 0x89, 0xec);
        push1(&mut self.code, 0x5d);
        push1(&mut self.code, 0xc3);
        proof {
            lemma_assemble_three(Instr::MovRspRbp, Instr::PopRbp, Instr::Ret);
            assert(self.code@ =~= old(self).code@ + assemble(epilogue()));
        }
    }

    /// `mov rax, value`
    fn emit_mov_rax_imm(&mut self, value: i64)
        ensures
            final(self).code@ == old(self).code@ + encode(Instr::LoadImmediate(value)),
            final(self).variables == old(self).variables,
    {
        if value >= 0 && value <= 127 {
            push1(&mut self.code, 0xb8);
            push_le32(
                &mut self.code,
                #[verifier::truncate]
                (value as u32),
            );
        } else {
            push2(&mut self.code, 0x48, 0xb8);
            push_le64(
                &mut self.code,
                #[verifier::truncate]
                (value as u64),
            );
        }
        assert(self.code@ =~= old(self).code@ + encode(Instr::LoadImmediate(value)));
    }

    /// `push rax`
    fn emit_push_rax(&mut self)
        ensures
            final(self).code@ == old(self).code@ + encode(Instr::PushRax),
            final(self).variables == old(self).variables,
    {
        push1(&mut self.code, 0x50);
    }

    /// `pop rcx`
    fn emit_pop_rcx(&mut self)
        ensures
            final(self).code@ == old(self).code@ + encode(Instr::PopRcx),
            final(self).variables == old(self).variables,
    {
        push1(&mut self.code, 0x59);
    }

    /// `add rax, rcx`
    fn emit_add_rax_rcx(&mut self)
        ensures
            final(self).code@ == old(self).code@ + encode(Instr::AddRaxRcx),
            final(self).variables == old(self).variables,
    {
        push3(&mut self.code, 0x48, 0x01, 0xc8);
    }

    /// `sub rax, rcx`
    fn emit_sub_rax_rcx(&mut self)
        ensures
            final(self).code@ == old(self).code@ + encode(Instr::SubRaxRcx),
            final(self).variables == old(self).variables,
    {
        push3(&mut self.code, 0x48, 0x29, 0xc8);
    }

    /// `mul rcx`: `rax = rax * rcx`
    fn emit_mul_rax_rcx(&mut self)
        ensures
            final(self).code@ == old(self).code@ + encode(Instr::MulRcx),
            final(self).variables == old(self).variables,
    {
        push3(&mut self.code, 0x48, 0xf7, 0xe1);
    }

    /// `test rax, rax`
    fn emit_test_rax(&mut self)
        ensures
            final(self).code@ == old(self).code@ + encode(Instr::TestRax),
            final(self).variables == old(self).variables,
    {
        push3(&mut self.code, 0x48, 0x85, 0xc0);
    }

    /// `cmp rax, rcx; sete al; movzx rax, al`
    fn emit_cmp_equal(&mut self)
        ensures
            final(self).code@ == old(self).code@ + assemble(
                seq![Instr::CompareRaxRcx, Instr::SetEqual, Instr::WidenAl],
            ),
            final(self).variables == old(self).variables,
    {
        push3(&mut self.code, 0x48, 0x39, 0xc8);
        push3(&mut self.code, 0x0f, 0x94, 0xc0);
        push4(&mut self.code, 0x48, 0x0f, 0xb6, 0xc0);
        proof {
            lemma_assemble_three(Instr::CompareRaxRcx, Instr::SetEqual, Instr::WidenAl);
            assert(self.code@ =~= old(self).code@ + assemble(
                seq![Instr::CompareRaxRcx, Instr::SetEqual, Instr::WidenAl],
            ));
        }
    }

    /// `cmp rax, rcx; setl al; movzx rax, al`
    fn emit_cmp_less(&mut self)
        ensures
            final(self).code@ == old(self).code@ + assemble(
                seq![Instr::CompareRaxRcx, Instr::SetLess, Instr::WidenAl],
            ),
            final(self).variables == old(self).variables,
    {
        push3(&mut self.code, 0x48, 0x39, 0xc8);
        push3(&mut self.code, 0x0f, 0x9c, 0xc0);
        push4(&mut self.code, 0x48, 0x0f, 0xb6, 0xc0);
        proof {
            lemma_assemble_three(Instr::CompareRaxRcx, Instr::SetLess, Instr::WidenAl);
            assert(self.code@ =~= old(self).code@ + assemble(
                seq![Instr::CompareRaxRcx, Instr::SetLess, Instr::WidenAl],
            ));
        }
    }

    /// `cmp rax, rcx; setg al; movzx rax, al`
    fn emit_cmp_greater(&mut self)
        ensures
            final(self).code@ == old(self).code@ + assemble(
                seq![Instr::CompareRaxRcx, Instr::SetGreater, Instr::WidenAl],
            ),
            final(self).variables == old(self).variables,
    {
        push3(&mut self.code, 0x48, 0x39, 0xc8);
        push3(&mut self.code, 0x0f, 0x9f, 0xc0);
        push4(&mut self.code, 0x48, 0x0f, 0xb6, 0xc0);
        proof {
            lemma_assemble_three(Instr::CompareRaxRcx, Instr::SetGreater, Instr::WidenAl);
            assert(self.code@ =~= old(self).code@ + assemble(
                seq![Instr::CompareRaxRcx, Instr::SetGreater, Instr::WidenAl],
            ));
        }
    }

    /// Emits the instructions that apply `op`, if the generator supports it.
    fn emit_operator(&mut self, op: BinaryOp) -> (r: Result<(), CodeGenError>)
        ensures
            final(self).variables == old(self).variables,
            match operator_instrs(op) {
                Some(ops) => r is Ok && final(self).code@ == old(self).code@ + assemble(ops),
                None => r == Err::<(), CodeGenError>(CodeGenError::UnsupportedOperation(op)),
            },
    {
        match op {
            BinaryOp::Add => {
                self.emit_add_rax_rcx();
                proof {
                    lemma_assemble_one(Instr::AddRaxRcx);
                }
            },
            BinaryOp::Sub => {
                self.emit_sub_rax_rcx();
                proof {
                    lemma_assemble_one(Instr::SubRaxRcx);
                }
            },
            BinaryOp::Mul => {
                self.emit_mul_rax_rcx();
                proof {
                    lemma_assemble_one(Instr::MulRcx);
                }
            },
            BinaryOp::Equal => self.emit_cmp_equal(),
            BinaryOp::Less => self.emit_cmp_less(),
            BinaryOp::Greater => self.emit_cmp_greater(),
            _ => return Err(CodeGenError::UnsupportedOperation(op)),
        }
        Ok(())
    }

    /// `jz rel32` with a displacement of zero, to be patched. Returns the position of the
    /// displacement.
    fn emit_jz_placeholder(&mut self) -> (pos: usize)
        ensures
            final(self).code@ == old(self).code@ + seq![0x0fu8, 0x84u8, 0u8, 0u8, 0u8, 0u8],
            pos == old(self).code@.len() + 2,
            final(self).variables == old(self).variables,
    {
        push2(&mut self.code, 0x0f, 0x84);
        let pos = self.code.len();
        push4(&mut self.code, 0, 0, 0, 0);
        assert(self.code@ =~= old(self).code@ + seq![0x0fu8, 0x84u8, 0u8, 0u8, 0u8, 0u8]);
        pos
    }

    /// `jmp rel32` with a displacement of zero, to be patched. Returns the position of the
    /// displacement.
    fn emit_jmp_placeholder(&mut self) -> (pos: usize)
        ensures
            final(self).code@ == old(self).code@ + seq![0xe9u8, 0u8, 0u8, 0u8, 0u8],
            pos == old(self).code@.len() + 1,
            final(self).variables == old(self).variables,
    {
        push1(&mut self.code, 0xe9);
        let pos = self.code.len();
        push4(&mut self.code, 0, 0, 0, 0);
        assert(self.code@ =~= old(self).code@ + seq![0xe9u8, 0u8, 0u8, 0u8, 0u8]);
        pos
    }

    /// Writes the four bytes of `bits`, least significant first, over the field at `pos`.
    fn patch_field(&mut self, pos: usize, bits: u32)
        requires
            pos + 4 <= old(self).code@.len(),
        ensures
            final(self).variables == old(self).variables,
            final(self).code@ == patched(old(self).code@, pos as int, le32(bits)),
    {
        let len = self.code.len();
        self.code[pos] = (bits & 0xff) as u8;
        self.code[pos + 1] = ((bits >> 8) & 0xff) as u8;
        self.code[pos + 2] = ((bits >> 16) & 0xff) as u8;
        self.code[pos + 3] = ((bits >> 24) & 0xff) as u8;
        assert(self.code@ =~= patched(old(self).code@, pos as int, le32(bits)));
    }

    /// Writes the displacement of the branch whose displacement field is at `jump_pos`, so
    /// that it lands on `target_pos`, before the branch or behind it:
    /// `displacement = target_pos - jump_pos - 4`, four being the size of the field. A
    /// displacement that does not fit 32 bits is refused and the code stays as it is.
    fn patch_jump(&mut self, jump_pos: usize, target_pos: usize) -> (r: Result<
        (),
        CodeGenError,
    >)
        requires
            jump_pos + 4 <= old(self).code@.len(),
        ensures
            final(self).variables == old(self).variables,
            i32::MIN <= target_pos - jump_pos - 4 <= i32::MAX ==> r is Ok && final(self).code@
                == patched(
                old(self).code@,
                jump_pos as int,
                le32(signed_bits(target_pos - jump_pos - 4)),
            ),
            !(i32::MIN <= target_pos - jump_pos - 4 <= i32::MAX) ==> r == Err::<
                (),
                CodeGenError,
            >(CodeGenError::BranchTooFar) && final(self).code@ == old(self).code@,
    {
        let len = self.code.len();
        let field_end = jump_pos + 4;
        let bits: u32 = if target_pos >= field_end {
            let forward = target_pos - field_end;
            if forward > 0x7fff_ffff {
                return Err(CodeGenError::BranchTooFar);
            }
            forward as u32
        } else {
            let back = field_end - target_pos;
            if back > 0x8000_0000 {
                return Err(CodeGenError::BranchTooFar);
            }
            (0x1_0000_0000u64 - back as u64) as u32
        };
        self.patch_field(jump_pos, bits);
        Ok(())
    }

    /// The slot of `name`, allocated now if the name has none.
    fn allocate_variable(&mut self, name: String) -> (r: Result<i32, CodeGenError>)
        ensures
            final(self).code == old(self).code,
            match position(old(self).variables@, name@) {
                Some(i) => final(self).variables@ == old(self).variables@ && r == Ok::<
                    i32,
                    CodeGenError,
                >(slot_offset(i) as i32),
                None => if old(self).variables@.len() < MAX_SLOTS {
                    &&& final(self).variables@ == old(self).variables@.push(name@)
                    &&& r == Ok::<i32, CodeGenError>(
                        slot_offset(old(self).variables@.len() as int) as i32,
                    )
                } else {
                    r == Err::<i32, CodeGenError>(CodeGenError::TooManyVariables)
                },
            },
    {
        match self.variables.allocate(name) {
            Some(offset) => Ok(offset),
            None => Err(CodeGenError::TooManyVariables),
        }
    }

    /// Emits the code that leaves the value of `expr` in `rax`.
    fn compile_expr(&mut self, expr: &Expr) -> (r: Result<(), CodeGenError>)
        ensures
            match lower(*expr, old(self).variables@) {
                Ok(l) => {
                    &&& r is Ok
                    &&& final(self).code@ == old(self).code@ + assemble(l.instrs)
                    &&& final(self).variables@ == l.layout
                },
                Err(e) => r == Err::<(), CodeGenError>(e),
            },
        decreases *expr, 1nat,
    {
        match expr {
            Expr::Number(n) => {
                self.emit_mov_rax_imm(*n);
                proof {
                    lemma_assemble_one(Instr::LoadImmediate(*n));
                }
                Ok(())
            },
            Expr::Variable(name) => {
                match self.variables.get(name.as_str()) {
                    Some(offset) => {
                        self.emit_mov_rax_stack(offset);
                        proof {
                            lemma_assemble_one(Instr::LoadSlot(offset));
                        }
                        Ok(())
                    },
                    None => Err(CodeGenError::UndefinedVariable(name.clone())),
                }
            },
            Expr::Binary { left, op, right } => self.compile_binary(expr),
            Expr::Assignment { name, value } => self.compile_assignment(expr),
            Expr::If { condition, true_expr, false_expr } => self.compile_conditional(expr),
            Expr::FunctionCall { name, args } => Err(CodeGenError::UnsupportedExpression),
        }
    }

    /// Emits the code of a binary operation: the right operand, a push, the left operand,
    /// a pop into `rcx`, the operator.
    fn compile_binary(&mut self, expr: &Expr) -> (r: Result<(), CodeGenError>)
        requires
            *expr is Binary,
        ensures
            match lower(*expr, old(self).variables@) {
                Ok(l) => {
                    &&& r is Ok
                    &&& final(self).code@ == old(self).code@ + assemble(l.instrs)
                    &&& final(self).variables@ == l.layout
                },
                Err(e) => r == Err::<(), CodeGenError>(e),
            },
        decreases *expr, 0nat,
    {
        let ghost start = self.code@;
        let ghost layout = self.variables@;
        match expr {
            Expr::Binary { left, op, right } => {
                self.compile_expr(right)?;
                self.emit_push_rax();
                self.compile_expr(left)?;
                self.emit_pop_rcx();
                self.emit_operator(*op)?;
                if operands_collide(left, right) || operands_collide(right, left) {
                    return Err(CodeGenError::OrderDependent);
                }
                proof {
                    let r = lower(**right, layout).unwrap();
                    let l = lower(**left, r.layout).unwrap();
                    let ops = operator_instrs(*op).unwrap();
                    lemma_assemble_binary(r.instrs, l.instrs, ops);
                    assert(self.code@ =~= start + (assemble(r.instrs) + encode(Instr::PushRax)
                        + assemble(l.instrs) + encode(Instr::PopRcx) + assemble(ops)));
                }
                Ok(())
            },
            _ => Ok(()),
        }
    }

    /// Emits the code of an assignment: the value, then a store into the slot of the name.
    fn compile_assignment(&mut self, expr: &Expr) -> (r: Result<(), CodeGenError>)
        requires
            *expr is Assignment,
        ensures
            match lower(*expr, old(self).variables@) {
                Ok(l) => {
                    &&& r is Ok
                    &&& final(self).code@ == old(self).code@ + assemble(l.instrs)
                    &&& final(self).variables@ == l.layout
                },
                Err(e) => r == Err::<(), CodeGenError>(e),
            },
        decreases *expr, 0nat,
    {
        let ghost start = self.code@;
        let ghost layout = self.variables@;
        match expr {
            Expr::Assignment { name, value } => {
                self.compile_expr(value)?;
                let offset = self.allocate_variable(name.clone())?;
                self.emit_mov_stack_rax(offset);
                proof {
                    let v = lower(**value, layout).unwrap();
                    lemma_assemble_one(Instr::StoreSlot(offset));
                    lemma_assemble_concat(v.instrs, seq![Instr::StoreSlot(offset)]);
                    assert(self.code@ =~= start + (assemble(v.instrs) + encode(
                        Instr::StoreSlot(offset),
                    )));
                }
                Ok(())
            },
            _ => Ok(()),
        }
    }

    /// Emits the code of a conditional: the condition, a test against zero, a branch over
    /// the true branch, the true branch, a jump over the false branch, the false branch.
    /// Both displacements are written once their targets are known.
    fn compile_conditional(&mut self, expr: &Expr) -> (r: Result<(), CodeGenError>)
        requires
            *expr is If,
        ensures
            match lower(*expr, old(self).variables@) {
                Ok(l) => {
                    &&& r is Ok
                    &&& final(self).code@ == old(self).code@ + assemble(l.instrs)
                    &&& final(self).variables@ == l.layout
                },
                Err(e) => r == Err::<(), CodeGenError>(e),
            },
        decreases *expr, 0nat,
    {
        let ghost start = self.code@;
        let ghost layout = self.variables@;
        match expr {
            Expr::If { condition, true_expr, false_expr } => {
                self.compile_expr(condition)?;
                self.emit_test_rax();
                let ghost tested = self.code@;
                let false_jump_pos = self.emit_jz_placeholder();
                self.compile_expr(true_expr)?;
                let end_jump_pos = self.emit_jmp_placeholder();
                let false_label_pos = self.code.len();
                let ghost c = lower(**condition, layout).unwrap();
                let ghost t = lower(**true_expr, c.layout).unwrap();
                let ghost skip_true = assemble(t.instrs).len() + jump_size();
                self.patch_jump(false_jump_pos, false_label_pos)?;
                let ghost branched = tested + encode(Instr::JumpIfZero(skip_true as i32))
                    + assemble(t.instrs);
                proof {
                    lemma_patch_branch(tested, assemble(t.instrs), skip_true as u32);
                }
                self.compile_expr(false_expr)?;
                let end_label_pos = self.code.len();
                let ghost f = lower(**false_expr, t.layout).unwrap();
                let ghost skip_false = assemble(f.instrs).len();
                self.patch_jump(end_jump_pos, end_label_pos)?;
                proof {
                    lemma_patch_jump(branched, assemble(f.instrs), skip_false as u32);
                    lemma_assemble_conditional(
                        c.instrs,
                        skip_true as i32,
                        t.instrs,
                        skip_false as i32,
                        f.instrs,
                    );
                    assert(self.code@ =~= start + (assemble(c.instrs) + encode(Instr::TestRax)
                        + encode(Instr::JumpIfZero(skip_true as i32)) + assemble(t.instrs)
                        + encode(Instr::Jump(skip_false as i32)) + assemble(f.instrs)));
                }
                Ok(())
            },
            _ => Ok(()),
        }
    }

    /// Generates the machine code of a function that computes `expr`: a prologue, which
    /// reserves the frame where a push could reach a slot that is in use, the code of the
    /// expression, an epilogue. The code keeps the stack balanced.
    pub fn generate(&mut self, expr: &Expr) -> (r: Result<CompiledFunction, CodeGenError>)
        ensures
            match lower(*expr, Seq::<Seq<char>>::empty()) {
                Ok(l) => {
                    &&& r is Ok
                    &&& r.unwrap().code@ == assemble(function_of(*expr, l))
                    &&& r.unwrap().entry_point == 0
                    &&& r.unwrap().variables@ == l.layout
                },
                Err(e) => r == Err::<CompiledFunction, CodeGenError>(e),
            },
            r is Ok ==> is_stack_balanced(r.unwrap().code@),
    {
        self.code = Vec::new();
        self.variables = VariableLayout::new();
        let reserve = expr_exposed(expr, false);
        self.emit_prologue();
        let mut frame_pos: usize = 0;
        if reserve {
            frame_pos = self.emit_reserve_placeholder();
        }
        self.compile_expr(expr)?;
        self.emit_epilogue();
        let ghost l = lower(*expr, Seq::<Seq<char>>::empty()).unwrap();
        if reserve {
            let slots = self.variables.len();
            self.patch_field(frame_pos, (8 * slots) as u32);
            proof {
                lemma_assemble_three(
                    Instr::PushRbp,
                    Instr::MovRbpRsp,
                    Instr::ReserveFrame((8 * slots) as i32),
                );
                lemma_assemble_two(Instr::PushRbp, Instr::MovRbpRsp);
                lemma_assemble_concat(prologue(Some(slots as nat)), l.instrs);
                lemma_assemble_concat(prologue(Some(slots as nat)) + l.instrs, epilogue());
                assert(self.code@ =~= assemble(function_of(*expr, l)));
            }
        } else {
            proof {
                lemma_assemble_concat(prologue(None), l.instrs);
                lemma_assemble_concat(prologue(None) + l.instrs, epilogue());
                assert(self.code@ =~= assemble(function_of(*expr, l)));
            }
        }
        proof {
            lemma_generated_bytes_are_stack_balanced(*expr);
        }
        Ok(
            CompiledFunction {
                code: self.code.clone(),
                entry_point: 0,
                variables: self.variables.clone(),
            },
        )
    }

    /// `mov [rbp + offset], rax`
    fn emit_mov_stack_rax(&mut self, offset: i32)
        ensures
            final(self).code@ == old(self).code@ + encode(Instr::StoreSlot(offset)),
            final(self).variables == old(self).variables,
    {
        if offset >= -128 && offset <= 127 {
            push4(
                &mut self.code,
                0x48,
                0x89,
                0x45,
                #[verifier::truncate]
                (offset as u8),
            );
        } else {
            push3(&mut self.code, 0x48, 0x89, 0x85);
            push_le32(
                &mut self.code,
                #[verifier::truncate]
                (offset as u32),
            );
        }
        assert(self.code@ =~= old(self).code@ + encode(Instr::StoreSlot(offset)));
    }

    /// `mov rax, [rbp + offset]`
    fn emit_mov_rax_stack(&mut self, offset: i32)
        ensures
            final(self).code@ == old(self).code@ + encode(Instr::LoadSlot(offset)),
            final(self).variables == old(self).variables,
    {
        if offset >= -128 && offset <= 127 {
            push4(
                &mut self.code,
                0x48,
                0x8b,
                0x45,
                #[verifier::truncate]
                (offset as u8),
            );
        } else {
            push3(&mut self.code, 0x48, 0x8b, 0x85);
            push_le32(
                &mut self.code,
                #[verifier::truncate]
                (offset as u32),
            );
        }
        assert(self.code@ =~= old(self).code@ + encode(Instr::LoadSlot(offset)));
    }
}

/// Whether `expr` holds an assignment.
pub fn expr_assigns(expr: &Expr) -> (r: bool)
    ensures
        r == assigns(*expr),
    decreases *expr,
{
    match expr {
        Expr::Number(_) => false,
        Expr::Variable(_) => false,
        Expr::Binary { left, op, right } => expr_assigns(left) || expr_assigns(right),
        Expr::Assignment { name, value } => true,
        Expr::FunctionCall { name, args } => false,
        Expr::If { condition, true_expr, false_expr } => expr_assigns(condition)
            || expr_assigns(true_expr) || expr_assigns(false_expr),
    }
}

/// Whether the code of `expr` needs a reserved frame, where `used` says whether a slot
/// may be in use before it.
pub fn expr_exposed(expr: &Expr, used: bool) -> (r: bool)
    ensures
        r == exposed(*expr, used),
    decreases *expr,
{
    match expr {
        Expr::Number(_) => false,
        Expr::Variable(_) => false,
        Expr::Binary { left, op, right } => used || expr_assigns(expr),
        Expr::Assignment { name, value } => expr_exposed(value, used),
        Expr::FunctionCall { name, args } => false,
        Expr::If { condition, true_expr, false_expr } => {
            let after_condition = used || expr_assigns(condition);
            expr_exposed(condition, used) || expr_exposed(true_expr, after_condition)
                || expr_exposed(false_expr, after_condition)
        },
    }
}

/// Whether `n` is among `names`.
pub open spec fn is_listed(names: Seq<String>, n: Seq<char>) -> bool {
    exists|i: int| 0 <= i < names.len() && #[trigger] names[i]@ == n
}

/// Adds the variables that `expr` assigns to `names`.
fn list_assigned(expr: &Expr, names: &mut Vec<String>)
    ensures
        forall|n: Seq<char>|
            #![trigger is_listed(final(names)@, n)]
            is_listed(final(names)@, n) <==> is_listed(old(names)@, n) || assigns_name(*expr, n),
    decreases *expr,
{
    match expr {
        Expr::Number(_) => {},
        Expr::Variable(_) => {},
        Expr::Binary { left, op, right } => {
            list_assigned(left, names);
            list_assigned(right, names);
        },
        Expr::Assignment { name, value } => {
            let ghost before = names@;
            names.push(name.clone());
            proof {
                lemma_listed_push(before, names@);
            }
            list_assigned(value, names);
        },
        Expr::FunctionCall { name, args } => {},
        Expr::If { condition, true_expr, false_expr } => {
            list_assigned(condition, names);
            list_assigned(true_expr, names);
            list_assigned(false_expr, names);
        },
    }
}

/// Adds the variables that `expr` reads or assigns to `names`.
fn list_mentioned(expr: &Expr, names: &mut Vec<String>)
    ensures
        forall|n: Seq<char>|
            #![trigger is_listed(final(names)@, n)]
            is_listed(final(names)@, n) <==> is_listed(old(names)@, n) || mentions_name(
                *expr,
                n,
            ),
    decreases *expr,
{
    match expr {
        Expr::Number(_) => {},
        Expr::Variable(name) => {
            let ghost before = names@;
            names.push(name.clone());
            proof {
                lemma_listed_push(before, names@);
            }
        },
        Expr::Binary { left, op, right } => {
            list_mentioned(left, names);
            list_mentioned(right, names);
        },
        Expr::Assignment { name, value } => {
            let ghost before = names@;
            names.push(name.clone());
            proof {
                lemma_listed_push(before, names@);
            }
            list_mentioned(value, names);
        },
        Expr::FunctionCall { name, args } => {},
        Expr::If { condition, true_expr, false_expr } => {
            list_mentioned(condition, names);
            list_mentioned(true_expr, names);
            list_mentioned(false_expr, names);
        },
    }
}

/// A list with one more name lists that name and what it listed before.
pub proof fn lemma_listed_push(names: Seq<String>, grown: Seq<String>)
    requires
        grown.len() == names.len() + 1,
        forall|i: int| 0 <= i < names.len() ==> grown[i] == names[i],
    ensures
        forall|n: Seq<char>|
            #![trigger is_listed(grown, n)]
            is_listed(grown, n) <==> is_listed(names, n) || grown[names.len() as int]@ == n,
{
    assert forall|n: Seq<char>|
        is_listed(grown, n) <==> is_listed(names, n) || grown[names.len() as int]@ == n by {
        if is_listed(grown, n) {
            let i = choose|i: int| 0 <= i < grown.len() && #[trigger] grown[i]@ == n;
            if i < names.len() {
                assert(names[i]@ == n);
            }
        }
        if is_listed(names, n) {
            let i = choose|i: int| 0 <= i < names.len() && #[trigger] names[i]@ == n;
            assert(grown[i]@ == n);
        }
        if grown[names.len() as int]@ == n {
            assert(is_listed(grown, n));
        }
    }
}

/// Whether the two lists share a name.
fn share_a_name(first: &Vec<String>, second: &Vec<String>) -> (shared: bool)
    ensures
        shared == exists|n: Seq<char>| is_listed(first@, n) && is_listed(second@, n),
{
    let mut i: usize = 0;
    while i < first.len()
        invariant
            i <= first@.len(),
            forall|a: int, b: int|
                0 <= a < i && 0 <= b < second@.len() ==> #[trigger] first@[a]@
                    != #[trigger] second@[b]@,
        decreases first@.len() - i,
    {
        let mut j: usize = 0;
        while j < second.len()
            invariant
                i < first@.len(),
                j <= second@.len(),
                forall|b: int| 0 <= b < j ==> first@[i as int]@ != #[trigger] second@[b]@,
            decreases second@.len() - j,
        {
            if same_text(first[i].as_str(), second[j].as_str()) {
                assert(is_listed(first@, first@[i as int]@));
                assert(is_listed(second@, second@[j as int]@));
                return true;
            }
            j = j + 1;
        }
        i = i + 1;
    }
    proof {
        assert forall|n: Seq<char>| !(is_listed(first@, n) && is_listed(second@, n)) by {
            if is_listed(first@, n) && is_listed(second@, n) {
                let a = choose|a: int| 0 <= a < first@.len() && #[trigger] first@[a]@ == n;
                let b = choose|b: int| 0 <= b < second@.len() && #[trigger] second@[b]@ == n;
                assert(first@[a]@ != second@[b]@);
            }
        }
    }
    false
}

/// Whether `first` assigns a variable that `second` reads or assigns.
pub fn operands_collide(first: &Expr, second: &Expr) -> (r: bool)
    ensures
        r == collides(*first, *second),
{
    let mut assigned: Vec<String> = Vec::new();
    list_assigned(first, &mut assigned);
    let mut mentioned: Vec<String> = Vec::new();
    list_mentioned(second, &mut mentioned);
    let shared = share_a_name(&assigned, &mentioned);
    proof {
        assert forall|n: Seq<char>| !is_listed(Seq::<String>::empty(), n) by {}
        if shared {
            let n = choose|n: Seq<char>| is_listed(assigned@, n) && is_listed(mentioned@, n);
            assert(assigns_name(*first, n) && mentions_name(*second, n));
        }
        if collides(*first, *second) {
            let n = choose|n: Seq<char>| assigns_name(*first, n) && mentions_name(*second, n);
            assert(is_listed(assigned@, n) && is_listed(mentioned@, n));
        }
    }
    shared
}

impl Default for X86CodeGenerator {
    /// A generator with no code and no variables.
    fn default() -> (generator: X86CodeGenerator)
        ensures
            generator.pending_code() == Seq::<u8>::empty(),
            generator.pending_layout() == Seq::<Seq<char>>::empty(),
    {
        X86CodeGenerator::new()
    }
}

} // verus!
