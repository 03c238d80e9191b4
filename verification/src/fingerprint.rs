//! The fingerprint of an expression: the key under which the cache files it.
//!
//! The fingerprint is a hash of a byte encoding of the expression's structure. It is a
//! function of the structure alone, so that expressions of the same structure always share
//! a fingerprint. Different expressions may share one too: the cache tolerates that.

use crate::ast::{BinaryOp, Expr};
use crate::codegen::le64;
use std::collections::hash_map::DefaultHasher;
use std::hash::Hasher;
use vstd::prelude::*;
use vstd::std_specs::hash::DefaultHasherAdditionalSpecFns;
use vstd::string::StringSliceAdditionalSpecFns;
use vstd::utf8::encode_utf8;

verus! {

/// The byte that stands for an operator.
pub open spec fn operator_code(op: BinaryOp) -> u8 {
    match op {
        BinaryOp::Add => 0,
        BinaryOp::Sub => 1,
        BinaryOp::Mul => 2,
        BinaryOp::Div => 3,
        BinaryOp::Mod => 4,
        BinaryOp::Equal => 5,
        BinaryOp::NotEqual => 6,
        BinaryOp::Less => 7,
        BinaryOp::Greater => 8,
        BinaryOp::LessEq => 9,
        BinaryOp::GreaterEq => 10,
    }
}

/// The sequence of writes that encodes an expression: for each node a tag for its kind,
/// what it holds, then its children in order.
pub open spec fn structure_writes(e: Expr) -> Seq<Seq<u8>>
    decreases e,
{
    match e {
        Expr::Number(n) => seq![seq![0u8], le64(n as u64)],
        Expr::Variable(name) => seq![seq![1u8], encode_utf8(name@), seq![0xffu8]],
        Expr::Binary { left, op, right } => seq![seq![2u8, operator_code(op)]]
            + structure_writes(*left) + structure_writes(*right),
        Expr::Assignment { name, value } => seq![
            seq![3u8],
            encode_utf8(name@),
            seq![0xffu8],
        ] + structure_writes(*value),
        Expr::FunctionCall { name, args } => seq![
            seq![4u8],
            encode_utf8(name@),
            seq![0xffu8],
            le64(args.len() as u64),
        ] + arguments_writes(args@, args@.len() as int),
        Expr::If { condition, true_expr, false_expr } => seq![seq![5u8]] + structure_writes(
            *condition,
        ) + structure_writes(*true_expr) + structure_writes(*false_expr),
    }
}

/// The writes that encode the first `n` of `args`, in order.
pub open spec fn arguments_writes(args: Seq<Expr>, n: int) -> Seq<Seq<u8>>
    decreases args, n,
{
    if n <= 0 || n > args.len() {
        Seq::empty()
    } else {
        arguments_writes(args, n - 1) + structure_writes(args[n - 1])
    }
}

/// The fingerprint of an expression.
pub open spec fn fingerprint(e: Expr) -> u64 {
    DefaultHasher::spec_finish(structure_writes(e))
}

/// Feeds one byte to the hasher as a write of its own.
fn write_byte(hasher: &mut DefaultHasher, b: u8)
    ensures
        final(hasher)@ == old(hasher)@.push(seq![b]),
{
    let mut bytes: Vec<u8> = Vec::new();
    bytes.push(b);
    assert(bytes@ =~= seq![b]);
    hasher.write(bytes.as_slice());
}

/// Feeds a name to the hasher: its bytes, then a byte that ends it.
fn write_name(hasher: &mut DefaultHasher, name: &str)
    ensures
        final(hasher)@ == old(hasher)@ + seq![encode_utf8(name@), seq![0xffu8]],
{
    hasher.write(name.as_bytes());
    write_byte(hasher, 0xff);
    assert(hasher@ =~= old(hasher)@ + seq![encode_utf8(name@), seq![0xffu8]]);
}

/// Feeds a 64-bit number to the hasher, least significant byte first.
fn write_number(hasher: &mut DefaultHasher, x: u64)
    ensures
        final(hasher)@ == old(hasher)@.push(le64(x)),
{
    let mut bytes: Vec<u8> = Vec::new();
    bytes.push((x & 0xff) as u8);
    bytes.push(((x >> 8) & 0xff) as u8);
    bytes.push(((x >> 16) & 0xff) as u8);
    bytes.push(((x >> 24) & 0xff) as u8);
    bytes.push(((x >> 32) & 0xff) as u8);
    bytes.push(((x >> 40) & 0xff) as u8);
    bytes.push(((x >> 48) & 0xff) as u8);
    bytes.push(((x >> 56) & 0xff) as u8);
    assert(bytes@ =~= le64(x));
    hasher.write(bytes.as_slice());
}

/// The byte that stands for an operator.
fn code_of_operator(op: BinaryOp) -> (code: u8)
    ensures
        code == operator_code(op),
{
    match op {
        BinaryOp::Add => 0,
        BinaryOp::Sub => 1,
        BinaryOp::Mul => 2,
        BinaryOp::Div => 3,
        BinaryOp::Mod => 4,
        BinaryOp::Equal => 5,
        BinaryOp::NotEqual => 6,
        BinaryOp::Less => 7,
        BinaryOp::Greater => 8,
        BinaryOp::LessEq => 9,
        BinaryOp::GreaterEq => 10,
    }
}

/// Feeds the encoding of `expr` to the hasher.
fn write_structure(hasher: &mut DefaultHasher, expr: &Expr)
    ensures
        final(hasher)@ == old(hasher)@ + structure_writes(*expr),
    decreases *expr,
{
    let ghost before = hasher@;
    match expr {
        Expr::Number(n) => {
            write_byte(hasher, 0);
            write_number(
                hasher,
                #[verifier::truncate]
                (*n as u64),
            );
            assert(hasher@ =~= before + structure_writes(*expr));
        },
        Expr::Variable(name) => {
            write_byte(hasher, 1);
            write_name(hasher, name.as_str());
            assert(hasher@ =~= before + structure_writes(*expr));
        },
        Expr::Binary { left, op, right } => {
            let mut tag: Vec<u8> = Vec::new();
            tag.push(2);
            tag.push(code_of_operator(*op));
            assert(tag@ =~= seq![2u8, operator_code(*op)]);
            hasher.write(tag.as_slice());
            write_structure(hasher, left);
            write_structure(hasher, right);
            assert(hasher@ =~= before + structure_writes(*expr));
        },
        Expr::Assignment { name, value } => {
            write_byte(hasher, 3);
            write_name(hasher, name.as_str());
            write_structure(hasher, value);
            assert(hasher@ =~= before + structure_writes(*expr));
        },
        Expr::FunctionCall { name, args } => {
            write_byte(hasher, 4);
            write_name(hasher, name.as_str());
            write_number(hasher, args.len() as u64);
            let ghost head = hasher@;
            let mut i: usize = 0;
            while i < args.len()
                invariant
                    i <= args.len(),
                    *expr is FunctionCall,
                    expr->args == *args,
                    hasher@ == head + arguments_writes(args@, i as int),
                decreases args.len() - i,
            {
                write_structure(hasher, &args[i]);
                i += 1;
                assert(hasher@ =~= head + arguments_writes(args@, i as int));
            }
            assert(hasher@ =~= before + structure_writes(*expr));
        },
        Expr::If { condition, true_expr, false_expr } => {
            write_byte(hasher, 5);
            write_structure(hasher, condition);
            write_structure(hasher, true_expr);
            write_structure(hasher, false_expr);
            assert(hasher@ =~= before + structure_writes(*expr));
        },
    }
}

/// Computes the fingerprint of `expr`.
pub fn fingerprint_of(expr: &Expr) -> (fp: u64)
    ensures
        fp == fingerprint(*expr),
{
    let mut hasher = DefaultHasher::new();
    write_structure(&mut hasher, expr);
    assert(hasher@ =~= structure_writes(*expr));
    hasher.finish()
}

} // verus!
