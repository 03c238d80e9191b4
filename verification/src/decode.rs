//! From machine code back to instructions, and what the bytes of a generated function
//! compute.
//!
//! The decoder reads the instruction that starts at an offset from the bytes alone. The
//! machine code of a sequence of instructions decodes to that sequence and to no other,
//! so that what `machine` proves of the instructions of a generated function holds of
//! its bytes.

use crate::ast::Expr;
use crate::codegen::{
    assemble, encode, fits_byte, fits_short, function_of, le32, le64, lower, signed_bits, Instr,
};
use crate::interpreter::{eval, EvalError};
use crate::machine::{agrees, lemma_function_computes_value, run, takes_bindings, Machine};
use crate::stack::{lemma_encoding_at, lemma_shape_of_encoding, offset_of, shape_at};
use vstd::prelude::*;

verus! {

/// The number that four bytes stand for, least significant first.
pub open spec fn bits32(b0: u8, b1: u8, b2: u8, b3: u8) -> u32 {
    (b0 as u32) | ((b1 as u32) << 8) | ((b2 as u32) << 16) | ((b3 as u32) << 24)
}

/// The number that the four bytes at `pc` stand for.
pub open spec fn bits32_at(code: Seq<u8>, pc: int) -> u32 {
    bits32(code[pc], code[pc + 1], code[pc + 2], code[pc + 3])
}

/// The number that the eight bytes at `pc` stand for, least significant first.
pub open spec fn bits64_at(code: Seq<u8>, pc: int) -> u64 {
    (bits32_at(code, pc) as u64) | ((bits32_at(code, pc + 4) as u64) << 32)
}

/// The signed number that 32 bits stand for.
pub open spec fn signed32(bits: u32) -> int {
    if bits < 0x8000_0000 {
        bits as int
    } else {
        bits - 0x1_0000_0000
    }
}

/// The signed number that a byte stands for.
pub open spec fn signed8(bits: u8) -> int {
    if bits < 0x80 {
        bits as int
    } else {
        bits - 0x100
    }
}

/// The instruction that the bytes at `pc` begin, for bytes that begin one.
pub open spec fn instr_at(code: Seq<u8>, pc: int) -> Instr {
    let first = code[pc];
    let second = code[pc + 1];
    let third = code[pc + 2];
    if first == 0x55 {
        Instr::PushRbp
    } else if first == 0x50 {
        Instr::PushRax
    } else if first == 0x5d {
        Instr::PopRbp
    } else if first == 0x59 {
        Instr::PopRcx
    } else if first == 0xc3 {
        Instr::Ret
    } else if first == 0xb8 {
        Instr::LoadImmediate(bits32_at(code, pc + 1) as i64)
    } else if first == 0xe9 {
        Instr::Jump(signed32(bits32_at(code, pc + 1)) as i32)
    } else if first == 0x0f {
        if second == 0x84 {
            Instr::JumpIfZero(signed32(bits32_at(code, pc + 2)) as i32)
        } else if second == 0x94 {
            Instr::SetEqual
        } else if second == 0x9c {
            Instr::SetLess
        } else {
            Instr::SetGreater
        }
    } else if second == 0xb8 {
        Instr::LoadImmediate(bits64_at(code, pc + 2) as i64)
    } else if second == 0x0f {
        Instr::WidenAl
    } else if second == 0x89 {
        if third == 0x45 {
            Instr::StoreSlot(signed8(code[pc + 3]) as i32)
        } else if third == 0x85 {
            Instr::StoreSlot(signed32(bits32_at(code, pc + 3)) as i32)
        } else if third == 0xe5 {
            Instr::MovRbpRsp
        } else {
            Instr::MovRspRbp
        }
    } else if second == 0x8b {
        if third == 0x45 {
            Instr::LoadSlot(signed8(code[pc + 3]) as i32)
        } else {
            Instr::LoadSlot(signed32(bits32_at(code, pc + 3)) as i32)
        }
    } else if second == 0x01 {
        Instr::AddRaxRcx
    } else if second == 0x29 {
        Instr::SubRaxRcx
    } else if second == 0x39 {
        Instr::CompareRaxRcx
    } else if second == 0x85 {
        Instr::TestRax
    } else if second == 0x81 {
        Instr::ReserveFrame(signed32(bits32_at(code, pc + 3)) as i32)
    } else {
        Instr::MulRcx
    }
}

/// The instruction that starts at `pc`, read from the bytes; none where the bytes are
/// no instruction of the generator.
pub open spec fn decode_at(code: Seq<u8>, pc: int) -> Option<Instr> {
    match shape_at(code, pc) {
        Some(_) => Some(instr_at(code, pc)),
        None => None,
    }
}

/// The instructions that the bytes from `pc` on hold, one after another up to the end;
/// none where some of the bytes are no instruction of the generator.
pub open spec fn disassemble(code: Seq<u8>, pc: int) -> Option<Seq<Instr>>
    decreases code.len() - pc,
{
    if pc >= code.len() {
        if pc == code.len() {
            Some(Seq::empty())
        } else {
            None
        }
    } else {
        match shape_at(code, pc) {
            None => None,
            Some(shape) => if shape.size <= 0 {
                None
            } else {
                match disassemble(code, pc + shape.size) {
                    None => None,
                    Some(rest) => Some(seq![instr_at(code, pc)] + rest),
                }
            },
        }
    }
}

/// The four bytes of a number stand for it.
pub proof fn lemma_bits32_of_le32(x: u32)
    ensures
        bits32(le32(x)[0], le32(x)[1], le32(x)[2], le32(x)[3]) == x,
{
    assert(((x & 0xff) as u8 as u32) | ((((x >> 8) & 0xff) as u8 as u32) << 8) | ((((x >> 16)
        & 0xff) as u8 as u32) << 16) | ((((x >> 24) & 0xff) as u8 as u32) << 24) == x)
        by (bit_vector);
}

/// The eight bytes of a number stand for it.
pub proof fn lemma_bits64_of_le64(x: u64)
    ensures
        (bits32(le64(x)[0], le64(x)[1], le64(x)[2], le64(x)[3]) as u64) | ((bits32(
            le64(x)[4],
            le64(x)[5],
            le64(x)[6],
            le64(x)[7],
        ) as u64) << 32) == x,
{
    assert(((((x & 0xff) as u8 as u32) | ((((x >> 8) & 0xff) as u8 as u32) << 8) | ((((x >> 16)
        & 0xff) as u8 as u32) << 16) | ((((x >> 24) & 0xff) as u8 as u32) << 24)) as u64) | ((((((x
        >> 32) & 0xff) as u8 as u32) | ((((x >> 40) & 0xff) as u8 as u32) << 8) | ((((x >> 48)
        & 0xff) as u8 as u32) << 16) | ((((x >> 56) & 0xff) as u8 as u32) << 24)) as u64) << 32)
        == x) by (bit_vector);
}

/// The bits of a signed number stand for it.
pub proof fn lemma_signed_of_bits(d: i32)
    ensures
        signed32(signed_bits(d as int)) == d,
        signed32(d as u32) == d,
        fits_byte(d as int) ==> signed8(d as u8) == d,
{
    assert(d < 0 ==> (d as u32) >= 0x8000_0000u32 && ((d as u32) as i64) - 0x1_0000_0000i64 == (
    d as i64)) by (bit_vector);
    assert(d >= 0 ==> (d as u32) < 0x8000_0000u32 && ((d as u32) as i64) == (d as i64))
        by (bit_vector);
    assert(-128 <= d < 0 ==> (d as u8) >= 0x80u8 && ((d as u8) as i32) - 0x100i32 == d)
        by (bit_vector);
    assert(0 <= d <= 127 ==> (d as u8) < 0x80u8 && ((d as u8) as i32) == d) by (bit_vector);
}

/// The bits of a 64-bit number stand for it.
pub proof fn lemma_signed_of_bits64(v: i64)
    ensures
        (v as u64) as i64 == v,
        fits_short(v as int) ==> (v as u32) as i64 == v,
{
    assert((v as u64) as i64 == v) by (bit_vector);
    assert(0 <= v <= 127 ==> (v as u32) as i64 == v) by (bit_vector);
}

/// Where the bytes at `pc` are the encoding of an instruction, the decoder reads that
/// instruction.
pub proof fn lemma_decode_of_encoding(code: Seq<u8>, pc: int, i: Instr)
    requires
        0 <= pc,
        pc + encode(i).len() <= code.len(),
        code.subrange(pc, pc + encode(i).len()) == encode(i),
    ensures
        decode_at(code, pc) == Some(i),
        shape_at(code, pc) is Some,
        shape_at(code, pc).unwrap().size == encode(i).len(),
{
    lemma_shape_of_encoding(code, pc, i);
    let bytes = encode(i);
    assert forall|k: int| 0 <= k < bytes.len() implies code[pc + k] == #[trigger] bytes[k] by {
        assert(code.subrange(pc, pc + bytes.len())[k] == code[pc + k]);
    }
    assert(code[pc] == bytes[0]);
    if bytes.len() >= 3 {
        assert(code[pc + 1] == bytes[1]);
        assert(code[pc + 2] == bytes[2]);
    }
    match i {
        Instr::ReserveFrame(size) => {
            lemma_field_at(code, pc, seq![0x48u8, 0x81u8, 0xecu8], signed_bits(size as int));
            lemma_signed_of_bits(size);
        },
        Instr::JumpIfZero(d) => {
            lemma_field_at(code, pc, seq![0x0fu8, 0x84u8], signed_bits(d as int));
            lemma_signed_of_bits(d);
        },
        Instr::Jump(d) => {
            lemma_field_at(code, pc, seq![0xe9u8], signed_bits(d as int));
            lemma_signed_of_bits(d);
        },
        Instr::LoadImmediate(v) => {
            lemma_signed_of_bits64(v);
            if fits_short(v as int) {
                lemma_field_at(code, pc, seq![0xb8u8], v as u32);
            } else {
                let x = v as u64;
                assert(bytes =~= seq![0x48u8, 0xb8u8] + le64(x));
                assert forall|k: int| 0 <= k < 8 implies code[pc + 2 + k] == le64(x)[k] by {
                    assert(bytes[2 + k] == le64(x)[k]);
                }
                lemma_bits64_of_le64(x);
                assert(bits64_at(code, pc + 2) == x);
            }
        },
        Instr::LoadSlot(offset) => {
            lemma_signed_of_bits(offset);
            if fits_byte(offset as int) {
                assert(code[pc + 3] == bytes[3]);
            } else {
                lemma_field_at(code, pc, seq![0x48u8, 0x8bu8, 0x85u8], offset as u32);
            }
        },
        Instr::StoreSlot(offset) => {
            lemma_signed_of_bits(offset);
            if fits_byte(offset as int) {
                assert(code[pc + 3] == bytes[3]);
            } else {
                lemma_field_at(code, pc, seq![0x48u8, 0x89u8, 0x85u8], offset as u32);
            }
        },
        Instr::WidenAl => {
            assert(code[pc + 3] == bytes[3]);
        },
        _ => {},
    }
}

/// Where an encoding that is `head` and then the four bytes of `x` stands at `pc`, the
/// four bytes behind `head` stand for `x`.
pub proof fn lemma_field_at(code: Seq<u8>, pc: int, head: Seq<u8>, x: u32)
    requires
        0 <= pc,
        forall|k: int| 0 <= k < head.len() + 4 ==> code[pc + k] == #[trigger] (head + le32(x))[k],
    ensures
        bits32_at(code, pc + head.len()) == x,
{
    let bytes = head + le32(x);
    let at = head.len() as int;
    assert(code[pc + at] == bytes[at]);
    assert(code[pc + at + 1] == bytes[at + 1]);
    assert(code[pc + at + 2] == bytes[at + 2]);
    assert(code[pc + at + 3] == bytes[at + 3]);
    assert(bytes[at] == le32(x)[0]);
    assert(bytes[at + 1] == le32(x)[1]);
    assert(bytes[at + 2] == le32(x)[2]);
    assert(bytes[at + 3] == le32(x)[3]);
    lemma_bits32_of_le32(x);
}

/// The machine code of a sequence of instructions decodes, from the offset of each of
/// them on, to the instructions from that one on.
pub proof fn lemma_disassemble_from(instrs: Seq<Instr>, k: int)
    requires
        0 <= k <= instrs.len(),
    ensures
        disassemble(assemble(instrs), offset_of(instrs, k)) == Some(instrs.skip(k)),
    decreases instrs.len() - k,
{
    let code = assemble(instrs);
    if k == instrs.len() {
        assert(instrs.take(k) =~= instrs);
        assert(instrs.skip(k) =~= Seq::<Instr>::empty());
    } else {
        lemma_encoding_at(instrs, k);
        lemma_decode_of_encoding(code, offset_of(instrs, k), instrs[k]);
        lemma_disassemble_from(instrs, k + 1);
        assert(instrs.skip(k) =~= seq![instrs[k]] + instrs.skip(k + 1));
    }
}

/// The machine code of a sequence of instructions decodes to that sequence.
pub proof fn lemma_disassemble_assembly(instrs: Seq<Instr>)
    ensures
        disassemble(assemble(instrs), 0) == Some(instrs),
{
    lemma_disassemble_from(instrs, 0);
    assert(instrs.take(0) =~= Seq::<Instr>::empty());
    assert(instrs.skip(0) =~= instrs);
}

/// Only one sequence of instructions has a given machine code.
pub proof fn lemma_assembly_is_unambiguous(a: Seq<Instr>, b: Seq<Instr>)
    requires
        assemble(a) == assemble(b),
    ensures
        a == b,
{
    lemma_disassemble_assembly(a);
    lemma_disassemble_assembly(b);
}

/// The state after the processor has run `n` instructions of the machine code `code`,
/// read from its bytes. None where the bytes are not instructions of the generator.
pub open spec fn run_code(code: Seq<u8>, m: Machine, n: nat) -> Option<Machine> {
    match disassemble(code, 0) {
        Some(program) => run(program, m, n),
        None => None,
    }
}

/// Equivalence, for the bytes of a function. Take any expression that the generator
/// accepts and any bindings under which the interpreter gives it a value and with which
/// the function can be entered. The machine
/// code that the generator makes for it, read from its bytes and started at its first
/// instruction with the memory that comes to lie below its frame base holding what the
/// bindings say, arrives at a return after the number of steps that is returned, with
/// the interpreter's value in the accumulator and with the stack and the frame base of
/// its caller as they were.
pub proof fn lemma_generated_bytes_compute_value(
    e: Expr,
    env: Map<Seq<char>, i64>,
    m: Machine,
) -> (steps: nat)
    requires
        lower(e, Seq::<Seq<char>>::empty()) is Ok,
        eval(e, env).result is Ok,
        m.pc == 0,
        m.seed.len() >= lower(e, Seq::<Seq<char>>::empty()).unwrap().layout.len(),
        agrees(m.seed, lower(e, Seq::<Seq<char>>::empty()).unwrap().layout, env),
        takes_bindings(e, env),
    ensures
        ({
            let code = assemble(function_of(e, lower(e, Seq::<Seq<char>>::empty()).unwrap()));
            let after = run_code(code, m, steps);
            &&& after is Some
            &&& decode_at(code, offset_of(disassemble(code, 0).unwrap(), after.unwrap().pc))
                == Some(Instr::Ret)
            &&& eval(e, env).result == Ok::<i64, EvalError>(after.unwrap().rax)
            &&& after.unwrap().stack == m.stack
            &&& after.unwrap().frame == m.frame
        }),
{
    let program = function_of(e, lower(e, Seq::<Seq<char>>::empty()).unwrap());
    let steps = lemma_function_computes_value(e, env, m);
    lemma_disassemble_assembly(program);
    let last = program.len() - 1;
    lemma_encoding_at(program, last);
    lemma_decode_of_encoding(assemble(program), offset_of(program, last), program[last]);
    steps
}

} // verus!
