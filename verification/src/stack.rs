//! The stack discipline of generated code.
//!
//! Generated code uses the native stack for the frame pointer, for the frame and for
//! right operands. Following the instructions in order and counting pushes and pops
//! gives the depth of the stack of operands at every point.

use crate::ast::Expr;
use crate::codegen::{
    assemble, encode, epilogue, function_of, lemma_assemble_concat, lemma_assemble_one, lower,
    operator_instrs, prologue, reserved_slots, Instr,
};
use vstd::prelude::*;

verus! {

/// By how many entries an instruction changes the depth of the stack of operands. Only
/// pushes and pops count: reserving the frame moves the stack pointer below the slots,
/// and `mov rsp, rbp` gives up the frame and whatever lies above it.
pub open spec fn stack_effect(i: Instr) -> int {
    match i {
        Instr::PushRbp => 1,
        Instr::PushRax => 1,
        Instr::PopRbp => -1,
        Instr::PopRcx => -1,
        _ => 0,
    }
}

/// The depth of the stack after the first `k` instructions, counted from the depth at
/// the start.
pub open spec fn depth_after(instrs: Seq<Instr>, k: int) -> int
    decreases k,
{
    if k <= 0 {
        0
    } else {
        depth_after(instrs, k - 1) + stack_effect(instrs[k - 1])
    }
}

/// Whether `instrs`, entered at depth `start`, never pops below the bottom of the stack
/// and leaves at depth `end`.
pub open spec fn runs_from(instrs: Seq<Instr>, start: int, end: int) -> bool {
    &&& forall|k: int| 0 <= k <= instrs.len() ==> start + #[trigger] depth_after(instrs, k) >= 0
    &&& start + depth_after(instrs, instrs.len() as int) == end
}

/// Whether none of `instrs` returns.
pub open spec fn no_return(instrs: Seq<Instr>) -> bool {
    forall|k: int| 0 <= k < instrs.len() ==> !(#[trigger] instrs[k] is Ret)
}

/// The depth inside the second of two sequences in a row continues that at the end of
/// the first.
pub proof fn lemma_depth_concat(a: Seq<Instr>, b: Seq<Instr>, k: int)
    requires
        0 <= k <= a.len() + b.len(),
    ensures
        depth_after(a + b, k) == if k <= a.len() {
            depth_after(a, k)
        } else {
            depth_after(a, a.len() as int) + depth_after(b, k - a.len())
        },
    decreases k,
{
    if k > 0 {
        lemma_depth_concat(a, b, k - 1);
        if k <= a.len() {
            assert((a + b)[k - 1] == a[k - 1]);
        } else {
            assert((a + b)[k - 1] == b[k - 1 - a.len()]);
            assert(depth_after(b, 0) == 0);
        }
    }
}

/// Two sequences in a row run from the start of the first to the end of the second.
pub proof fn lemma_runs_concat(a: Seq<Instr>, b: Seq<Instr>, start: int, mid: int, end: int)
    requires
        runs_from(a, start, mid),
        runs_from(b, mid, end),
    ensures
        runs_from(a + b, start, end),
{
    assert forall|k: int| 0 <= k <= (a + b).len() implies start + #[trigger] depth_after(
        a + b,
        k,
    ) >= 0 by {
        lemma_depth_concat(a, b, k);
        if k > a.len() {
            assert(mid + depth_after(b, k - a.len()) >= 0);
        }
    }
    lemma_depth_concat(a, b, (a + b).len() as int);
    if b.len() == 0 {
        assert(depth_after(b, 0) == 0);
    }
}

/// Two sequences without a return have none in a row either.
pub proof fn lemma_no_return_concat(a: Seq<Instr>, b: Seq<Instr>)
    requires
        no_return(a),
        no_return(b),
    ensures
        no_return(a + b),
{
    assert forall|k: int| 0 <= k < (a + b).len() implies !(#[trigger] (a + b)[k] is Ret) by {
        if k < a.len() {
            assert((a + b)[k] == a[k]);
        } else {
            assert((a + b)[k] == b[k - a.len()]);
        }
    }
}

/// A sequence that runs balanced from the bottom runs balanced from any depth.
pub proof fn lemma_runs_deeper(a: Seq<Instr>, depth: int)
    requires
        runs_from(a, 0, 0),
        depth >= 0,
    ensures
        runs_from(a, depth, depth),
{
}

/// A single instruction runs from any depth that it does not pop below the bottom of.
pub proof fn lemma_runs_one(i: Instr, start: int)
    requires
        start >= 0,
        start + stack_effect(i) >= 0,
    ensures
        runs_from(seq![i], start, start + stack_effect(i)),
{
    reveal_with_fuel(depth_after, 2);
    assert forall|k: int| 0 <= k <= seq![i].len() implies start + #[trigger] depth_after(
        seq![i],
        k,
    ) >= 0 by {
        if k == 1 {
            assert(seq![i][0] == i);
        }
    }
    assert(seq![i][0] == i);
}

/// The instructions of every supported operator leave the depth of the stack alone.
pub proof fn lemma_operator_is_balanced(ops: Seq<Instr>)
    requires
        exists|op: crate::ast::BinaryOp| operator_instrs(op) == Some(ops),
    ensures
        runs_from(ops, 0, 0),
        no_return(ops),
{
    reveal_with_fuel(depth_after, 4);
    assert(ops.len() <= 3);
    assert forall|k: int| 0 <= k <= ops.len() implies 0 + #[trigger] depth_after(ops, k)
        >= 0 by {
        assert(k == 0 || k == 1 || k == 2 || k == 3);
    }
}

/// The code of an expression is balanced: entered at any depth it never pops below that
/// depth, it ends at the depth at which it began, and it does not return.
pub proof fn lemma_expression_is_balanced(e: Expr, layout: Seq<Seq<char>>)
    requires
        lower(e, layout) is Ok,
    ensures
        runs_from(lower(e, layout).unwrap().instrs, 0, 0),
        no_return(lower(e, layout).unwrap().instrs),
    decreases e,
{
    match e {
        Expr::Number(n) => {
            lemma_runs_one(Instr::LoadImmediate(n), 0);
        },
        Expr::Variable(name) => {
            let instrs = lower(e, layout).unwrap().instrs;
            lemma_runs_one(instrs[0], 0);
            assert(instrs =~= seq![instrs[0]]);
        },
        Expr::Binary { left, op, right } => {
            let r = lower(*right, layout).unwrap();
            let l = lower(*left, r.layout).unwrap();
            let ops = operator_instrs(op).unwrap();
            lemma_expression_is_balanced(*right, layout);
            lemma_expression_is_balanced(*left, r.layout);
            lemma_operator_is_balanced(ops);
            let push = seq![Instr::PushRax];
            let pop = seq![Instr::PopRcx];
            lemma_runs_one(Instr::PushRax, 0);
            lemma_runs_one(Instr::PopRcx, 1);
            lemma_runs_deeper(l.instrs, 1);
            lemma_runs_concat(r.instrs, push, 0, 0, 1);
            lemma_runs_concat(r.instrs + push, l.instrs, 0, 1, 1);
            lemma_runs_concat(r.instrs + push + l.instrs, pop, 0, 1, 0);
            lemma_runs_concat(r.instrs + push + l.instrs + pop, ops, 0, 0, 0);
            lemma_no_return_concat(r.instrs, push);
            lemma_no_return_concat(r.instrs + push, l.instrs);
            lemma_no_return_concat(r.instrs + push + l.instrs, pop);
            lemma_no_return_concat(r.instrs + push + l.instrs + pop, ops);
        },
        Expr::Assignment { name, value } => {
            let v = lower(*value, layout).unwrap();
            lemma_expression_is_balanced(*value, layout);
            let instrs = lower(e, layout).unwrap().instrs;
            let store = seq![instrs.last()];
            assert(instrs =~= v.instrs + store);
            lemma_runs_one(instrs.last(), 0);
            lemma_runs_concat(v.instrs, store, 0, 0, 0);
            lemma_no_return_concat(v.instrs, store);
        },
        Expr::If { condition, true_expr, false_expr } => {
            let c = lower(*condition, layout).unwrap();
            let t = lower(*true_expr, c.layout).unwrap();
            let f = lower(*false_expr, t.layout).unwrap();
            lemma_expression_is_balanced(*condition, layout);
            lemma_expression_is_balanced(*true_expr, c.layout);
            lemma_expression_is_balanced(*false_expr, t.layout);
            let instrs = lower(e, layout).unwrap().instrs;
            let test = seq![Instr::TestRax];
            let branch = seq![instrs[c.instrs.len() as int + 1]];
            let jump = seq![instrs[c.instrs.len() as int + 2 + t.instrs.len()]];
            assert(instrs =~= c.instrs + test + branch + t.instrs + jump + f.instrs);
            lemma_runs_one(Instr::TestRax, 0);
            lemma_runs_one(branch[0], 0);
            lemma_runs_one(jump[0], 0);
            lemma_runs_concat(c.instrs, test, 0, 0, 0);
            lemma_runs_concat(c.instrs + test, branch, 0, 0, 0);
            lemma_runs_concat(c.instrs + test + branch, t.instrs, 0, 0, 0);
            lemma_runs_concat(c.instrs + test + branch + t.instrs, jump, 0, 0, 0);
            lemma_runs_concat(c.instrs + test + branch + t.instrs + jump, f.instrs, 0, 0, 0);
            lemma_no_return_concat(c.instrs, test);
            lemma_no_return_concat(c.instrs + test, branch);
            lemma_no_return_concat(c.instrs + test + branch, t.instrs);
            lemma_no_return_concat(c.instrs + test + branch + t.instrs, jump);
            lemma_no_return_concat(c.instrs + test + branch + t.instrs + jump, f.instrs);
        },
        Expr::FunctionCall { name, args } => {},
    }
}

/// Stack balance: following the instructions of any generated function in order, the
/// stack never goes below the depth at which the function was entered, and it is back at
/// exactly that depth wherever the function returns.
pub proof fn lemma_generated_code_is_stack_balanced(e: Expr)
    requires
        lower(e, Seq::<Seq<char>>::empty()) is Ok,
    ensures
        ({
            let instrs = function_of(e, lower(e, Seq::<Seq<char>>::empty()).unwrap());
            &&& forall|k: int| 0 <= k <= instrs.len() ==> #[trigger] depth_after(instrs, k) >= 0
            &&& forall|k: int|
                0 <= k < instrs.len() && #[trigger] instrs[k] is Ret ==> depth_after(instrs, k)
                    == 0
        }),
{
    let body = lower(e, Seq::<Seq<char>>::empty()).unwrap().instrs;
    let slots = reserved_slots(e, lower(e, Seq::<Seq<char>>::empty()).unwrap());
    let start = prologue(slots).len() as int;
    let instrs = function_of(e, lower(e, Seq::<Seq<char>>::empty()).unwrap());
    lemma_expression_is_balanced(e, Seq::<Seq<char>>::empty());
    lemma_runs_deeper(body, 1);
    reveal_with_fuel(depth_after, 4);
    assert(runs_from(prologue(slots), 0, 1)) by {
        assert forall|k: int| 0 <= k <= prologue(slots).len() implies 0 + #[trigger] depth_after(
            prologue(slots),
            k,
        ) >= 0 by {
            assert(k == 0 || k == 1 || k == 2 || k == 3);
        }
    }
    assert(runs_from(epilogue(), 1, 0)) by {
        assert forall|k: int| 0 <= k <= epilogue().len() implies 1 + #[trigger] depth_after(
            epilogue(),
            k,
        ) >= 0 by {
            assert(k == 0 || k == 1 || k == 2 || k == 3);
        }
    }
    lemma_runs_concat(prologue(slots), body, 0, 1, 1);
    lemma_runs_concat(prologue(slots) + body, epilogue(), 0, 1, 0);
    let head = prologue(slots) + body;
    assert forall|k: int| 0 <= k < instrs.len() && #[trigger] instrs[k] is Ret implies depth_after(
        instrs,
        k,
    ) == 0 by {
        if k < start {
            assert(instrs[k] == prologue(slots)[k]);
        } else if k < head.len() {
            assert(instrs[k] == body[k - start]);
        } else {
            assert(instrs[k] == epilogue()[k - head.len()]);
            assert(k - head.len() == 2);
            lemma_depth_concat(head, epilogue(), k);
        }
    }
}

/// What following an instruction takes: its size in bytes, by how much it changes the
/// depth of the stack, and whether it returns.
pub struct Shape {
    pub size: int,
    pub effect: int,
    pub is_return: bool,
}

/// The shape of an instruction of `size` bytes at `pc`, if `code` holds all of it.
pub open spec fn whole(code: Seq<u8>, pc: int, size: int, effect: int, is_return: bool) -> Option<
    Shape,
> {
    if pc + size <= code.len() {
        Some(Shape { size, effect, is_return })
    } else {
        None
    }
}

/// The shape of the instruction that starts at `pc`, read from the bytes; none where the
/// bytes are no instruction of the generator.
pub open spec fn shape_at(code: Seq<u8>, pc: int) -> Option<Shape> {
    if pc < 0 || pc + 1 > code.len() {
        None
    } else if code[pc] == 0x55 || code[pc] == 0x50 {
        whole(code, pc, 1, 1, false)
    } else if code[pc] == 0x5d || code[pc] == 0x59 {
        whole(code, pc, 1, -1, false)
    } else if code[pc] == 0xc3 {
        whole(code, pc, 1, 0, true)
    } else if code[pc] == 0xb8 || code[pc] == 0xe9 {
        whole(code, pc, 5, 0, false)
    } else if pc + 3 > code.len() {
        None
    } else if code[pc] == 0x0f {
        if code[pc + 1] == 0x84 {
            whole(code, pc, 6, 0, false)
        } else if (code[pc + 1] == 0x94 || code[pc + 1] == 0x9c || code[pc + 1] == 0x9f)
            && code[pc + 2] == 0xc0 {
            whole(code, pc, 3, 0, false)
        } else {
            None
        }
    } else if code[pc] == 0x48 {
        if code[pc + 1] == 0xb8 {
            whole(code, pc, 10, 0, false)
        } else if code[pc + 1] == 0x0f {
            if code[pc + 2] == 0xb6 && pc + 4 <= code.len() && code[pc + 3] == 0xc0 {
                whole(code, pc, 4, 0, false)
            } else {
                None
            }
        } else if code[pc + 1] == 0x89 || code[pc + 1] == 0x8b {
            if code[pc + 2] == 0x45 {
                whole(code, pc, 4, 0, false)
            } else if code[pc + 2] == 0x85 {
                whole(code, pc, 7, 0, false)
            } else if code[pc + 1] == 0x89 && (code[pc + 2] == 0xe5 || code[pc + 2] == 0xec) {
                whole(code, pc, 3, 0, false)
            } else {
                None
            }
        } else if (code[pc + 1] == 0x01 || code[pc + 1] == 0x29 || code[pc + 1] == 0x39)
            && code[pc + 2] == 0xc8 {
            whole(code, pc, 3, 0, false)
        } else if code[pc + 1] == 0x85 && code[pc + 2] == 0xc0 {
            whole(code, pc, 3, 0, false)
        } else if code[pc + 1] == 0x81 && code[pc + 2] == 0xec {
            whole(code, pc, 7, 0, false)
        } else if code[pc + 1] == 0xf7 && code[pc + 2] == 0xe1 {
            whole(code, pc, 3, 0, false)
        } else {
            None
        }
    } else {
        None
    }
}

/// Whether following the bytes of `code` from `pc` on, at the depth `depth`, finds
/// instruction after instruction up to the end, never pops below the depth at the start
/// of the function, and finds every return at exactly that depth.
pub open spec fn follows_balanced(code: Seq<u8>, pc: int, depth: int) -> bool
    decreases code.len() - pc,
{
    if pc >= code.len() {
        pc == code.len()
    } else {
        match shape_at(code, pc) {
            None => false,
            Some(shape) => {
                &&& shape.size > 0
                &&& shape.is_return ==> depth == 0
                &&& depth + shape.effect >= 0
                &&& follows_balanced(code, pc + shape.size, depth + shape.effect)
            },
        }
    }
}

/// Whether machine code keeps the stack balanced: following its bytes from the first
/// one, the stack never goes below the depth at the start and is back at it at every
/// return.
pub open spec fn is_stack_balanced(code: Seq<u8>) -> bool {
    follows_balanced(code, 0, 0)
}

/// Whether machine code keeps the stack balanced, found by following its instructions.
pub fn check_stack_balance(code: &Vec<u8>) -> (balanced: bool)
    ensures
        balanced == is_stack_balanced(code@),
{
    let len = code.len();
    let mut pc: usize = 0;
    let mut depth: usize = 0;
    while pc < len
        invariant
            len == code@.len(),
            pc <= len,
            depth <= pc,
            is_stack_balanced(code@) == follows_balanced(code@, pc as int, depth as int),
        decreases len - pc,
    {
        let b0 = code[pc];
        let rest = len - pc;
        let mut size: usize = 0;
        let mut pushes = false;
        let mut pops = false;
        let mut is_return = false;
        if b0 == 0x55 || b0 == 0x50 {
            size = 1;
            pushes = true;
        } else if b0 == 0x5d || b0 == 0x59 {
            size = 1;
            pops = true;
        } else if b0 == 0xc3 {
            size = 1;
            is_return = true;
        } else if b0 == 0xb8 || b0 == 0xe9 {
            size = 5;
        } else if rest >= 3 {
            let b1 = code[pc + 1];
            let b2 = code[pc + 2];
            if b0 == 0x0f {
                if b1 == 0x84 {
                    size = 6;
                } else if (b1 == 0x94 || b1 == 0x9c || b1 == 0x9f) && b2 == 0xc0 {
                    size = 3;
                }
            } else if b0 == 0x48 {
                if b1 == 0xb8 {
                    size = 10;
                } else if b1 == 0x0f {
                    if b2 == 0xb6 && rest >= 4 && code[pc + 3] == 0xc0 {
                        size = 4;
                    }
                } else if b1 == 0x89 || b1 == 0x8b {
                    if b2 == 0x45 {
                        size = 4;
                    } else if b2 == 0x85 {
                        size = 7;
                    } else if b1 == 0x89 && (b2 == 0xe5 || b2 == 0xec) {
                        size = 3;
                    }
                } else if (b1 == 0x01 || b1 == 0x29 || b1 == 0x39) && b2 == 0xc8 {
                    size = 3;
                } else if b1 == 0x85 && b2 == 0xc0 {
                    size = 3;
                } else if b1 == 0x81 && b2 == 0xec {
                    size = 7;
                } else if b1 == 0xf7 && b2 == 0xe1 {
                    size = 3;
                }
            }
        }
        if size == 0 || size > rest {
            return false;
        }
        if is_return && depth != 0 {
            return false;
        }
        if pops {
            if depth == 0 {
                return false;
            }
            depth = depth - 1;
        }
        if pushes {
            depth = depth + 1;
        }
        pc = pc + size;
    }
    true
}

/// The bytes of an instruction tell its shape: wherever `code` holds the encoding of `i`
/// at `pc`, the instruction read there has the size of the encoding, the effect of `i`
/// on the stack, and returns exactly if `i` does.
pub proof fn lemma_shape_of_encoding(code: Seq<u8>, pc: int, i: Instr)
    requires
        0 <= pc,
        pc + encode(i).len() <= code.len(),
        code.subrange(pc, pc + encode(i).len()) == encode(i),
    ensures
        shape_at(code, pc) == Some(
            Shape { size: encode(i).len() as int, effect: stack_effect(i), is_return: i is Ret },
        ),
{
    let bytes = encode(i);
    assert forall|k: int| 0 <= k < bytes.len() implies code[pc + k] == #[trigger] bytes[k] by {
        assert(code.subrange(pc, pc + bytes.len())[k] == code[pc + k]);
    }
    assert(bytes.len() >= 1);
    assert(code[pc] == bytes[0]);
    if bytes.len() >= 2 {
        assert(code[pc + 1] == bytes[1]);
    }
    if bytes.len() >= 3 {
        assert(code[pc + 2] == bytes[2]);
    }
    if bytes.len() >= 4 {
        assert(code[pc + 3] == bytes[3]);
    }
}

/// The offset at which the instruction `k` of `instrs` starts in their machine code.
pub open spec fn offset_of(instrs: Seq<Instr>, k: int) -> int {
    assemble(instrs.take(k)).len() as int
}

/// The machine code of a sequence of instructions holds the encoding of each at its
/// offset.
pub proof fn lemma_encoding_at(instrs: Seq<Instr>, k: int)
    requires
        0 <= k < instrs.len(),
    ensures
        offset_of(instrs, k + 1) == offset_of(instrs, k) + encode(instrs[k]).len(),
        offset_of(instrs, k + 1) <= assemble(instrs).len(),
        assemble(instrs).subrange(offset_of(instrs, k), offset_of(instrs, k + 1)) == encode(
            instrs[k],
        ),
{
    let head = instrs.take(k);
    let one = seq![instrs[k]];
    let tail = instrs.skip(k + 1);
    assert(instrs.take(k + 1) =~= head + one);
    assert(instrs =~= head + one + tail);
    lemma_assemble_one(instrs[k]);
    lemma_assemble_concat(head, one);
    lemma_assemble_concat(head + one, tail);
    assert(assemble(instrs) == assemble(head) + encode(instrs[k]) + assemble(tail));
    assert(assemble(instrs).subrange(offset_of(instrs, k), offset_of(instrs, k + 1)) =~= encode(
        instrs[k],
    ));
}

/// Following the machine code of instructions that run balanced and return only at the
/// depth of the start, the first `k` instructions are found one after another.
pub proof fn lemma_follow_prefix(instrs: Seq<Instr>, k: int)
    requires
        0 <= k <= instrs.len(),
        forall|j: int| 0 <= j <= instrs.len() ==> #[trigger] depth_after(instrs, j) >= 0,
        forall|j: int|
            0 <= j < instrs.len() && #[trigger] instrs[j] is Ret ==> depth_after(instrs, j) == 0,
    ensures
        0 <= offset_of(instrs, k) <= assemble(instrs).len(),
        is_stack_balanced(assemble(instrs)) == follows_balanced(
            assemble(instrs),
            offset_of(instrs, k),
            depth_after(instrs, k),
        ),
    decreases k,
{
    let code = assemble(instrs);
    if k == 0 {
        assert(instrs.take(0) =~= Seq::<Instr>::empty());
    } else {
        lemma_follow_prefix(instrs, k - 1);
        lemma_encoding_at(instrs, k - 1);
        let pc = offset_of(instrs, k - 1);
        lemma_shape_of_encoding(code, pc, instrs[k - 1]);
        assert(encode(instrs[k - 1]).len() > 0);
        assert(depth_after(instrs, k) == depth_after(instrs, k - 1) + stack_effect(
            instrs[k - 1],
        ));
    }
}

/// Stack balance, on the bytes: the machine code of any generated function keeps the
/// stack balanced.
pub proof fn lemma_generated_bytes_are_stack_balanced(e: Expr)
    requires
        lower(e, Seq::<Seq<char>>::empty()) is Ok,
    ensures
        is_stack_balanced(
            assemble(function_of(e, lower(e, Seq::<Seq<char>>::empty()).unwrap())),
        ),
{
    let instrs = function_of(e, lower(e, Seq::<Seq<char>>::empty()).unwrap());
    lemma_generated_code_is_stack_balanced(e);
    lemma_follow_prefix(instrs, instrs.len() as int);
    assert(instrs.take(instrs.len() as int) =~= instrs);
}

} // verus!
