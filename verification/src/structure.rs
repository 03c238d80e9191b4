//! What depends on the structure of an expression alone.
//!
//! Two expressions have the same structure when their views are equal: they may live
//! at different places in memory, but they hold the same literals, names and operators
//! in the same shape. Fingerprint, compilability, generated code and value are the same
//! for both.

use crate::ast::{expr_view, lemma_views_of, views_of, Expr};
use crate::codegen::{
    assigns, assigns_name, exposed, lower, mentions_name, CodeGenError, Lowered,
};
use crate::codegen::le64;
use crate::fingerprint::{arguments_writes, fingerprint, operator_code, structure_writes};
use crate::interpreter::{eval, EvalError, EvalOutcome};
use crate::jit::{generated, is_compilable};
use vstd::prelude::*;
use vstd::utf8::{encode_utf8, encode_utf8_decode_utf8};

verus! {

/// Whether two evaluation errors say the same: the same kind of error about the same
/// name and numbers.
pub open spec fn same_eval_error(a: EvalError, b: EvalError) -> bool {
    match (a, b) {
        (EvalError::UndefinedVariable(x), EvalError::UndefinedVariable(y)) => x@ == y@,
        (EvalError::DivisionByZero, EvalError::DivisionByZero) => true,
        (EvalError::UnknownFunction(x), EvalError::UnknownFunction(y)) => x@ == y@,
        (
            EvalError::ArityMismatch { name: x, expected: e1, got: g1 },
            EvalError::ArityMismatch { name: y, expected: e2, got: g2 },
        ) => x@ == y@ && e1 == e2 && g1 == g2,
        _ => false,
    }
}

/// Whether two outcomes of an evaluation say the same: the same bindings afterwards, and
/// the same value or errors that say the same.
pub open spec fn same_outcome(a: EvalOutcome, b: EvalOutcome) -> bool {
    &&& a.env == b.env
    &&& match (a.result, b.result) {
        (Ok(x), Ok(y)) => x == y,
        (Err(x), Err(y)) => same_eval_error(x, y),
        _ => false,
    }
}

/// Whether two generation errors say the same.
pub open spec fn same_codegen_error(a: CodeGenError, b: CodeGenError) -> bool {
    match (a, b) {
        (CodeGenError::UndefinedVariable(x), CodeGenError::UndefinedVariable(y)) => x@ == y@,
        (CodeGenError::UnsupportedOperation(x), CodeGenError::UnsupportedOperation(y)) => x == y,
        (CodeGenError::UnsupportedExpression, CodeGenError::UnsupportedExpression) => true,
        (CodeGenError::TooManyVariables, CodeGenError::TooManyVariables) => true,
        (CodeGenError::BranchTooFar, CodeGenError::BranchTooFar) => true,
        (CodeGenError::OrderDependent, CodeGenError::OrderDependent) => true,
        _ => false,
    }
}

/// Whether two lowerings say the same: the same instructions and layout, or errors
/// that say the same.
pub open spec fn same_lowering(
    a: Result<Lowered, CodeGenError>,
    b: Result<Lowered, CodeGenError>,
) -> bool {
    match (a, b) {
        (Ok(x), Ok(y)) => x == y,
        (Err(x), Err(y)) => same_codegen_error(x, y),
        _ => false,
    }
}

/// Sequences of expressions with the same views have the same length, and their members
/// have the same views one for one.
pub proof fn lemma_same_arguments(a: Seq<Expr>, b: Seq<Expr>)
    requires
        views_of(a, a.len() as int) == views_of(b, b.len() as int),
    ensures
        a.len() == b.len(),
        forall|i: int| 0 <= i < a.len() ==> #[trigger] expr_view(a[i]) == expr_view(b[i]),
{
    lemma_views_of(a, a.len() as int);
    lemma_views_of(b, b.len() as int);
    assert forall|i: int| 0 <= i < a.len() implies #[trigger] expr_view(a[i]) == expr_view(
        b[i],
    ) by {
        assert(views_of(a, a.len() as int)[i] == expr_view(a[i]));
        assert(views_of(b, b.len() as int)[i] == expr_view(b[i]));
    }
}

/// Expressions of the same structure are encoded by the same writes.
pub proof fn lemma_same_writes(a: Expr, b: Expr)
    requires
        a@ == b@,
    ensures
        structure_writes(a) == structure_writes(b),
    decreases a,
{
    match a {
        Expr::Number(_) => {},
        Expr::Variable(_) => {},
        Expr::Binary { left, op, right } => {
            lemma_same_writes(*left, *b->Binary_left);
            lemma_same_writes(*right, *b->Binary_right);
        },
        Expr::Assignment { name, value } => {
            lemma_same_writes(*value, *b->Assignment_value);
        },
        Expr::FunctionCall { name, args } => {
            let other = b->FunctionCall_args;
            lemma_same_arguments(args@, other@);
            lemma_same_argument_writes(args@, other@, args@.len() as int);
        },
        Expr::If { condition, true_expr, false_expr } => {
            lemma_same_writes(*condition, *b->If_condition);
            lemma_same_writes(*true_expr, *b->If_true_expr);
            lemma_same_writes(*false_expr, *b->If_false_expr);
        },
    }
}

/// Arguments of the same structure are encoded by the same writes.
pub proof fn lemma_same_argument_writes(a: Seq<Expr>, b: Seq<Expr>, n: int)
    requires
        a.len() == b.len(),
        forall|i: int| 0 <= i < a.len() ==> #[trigger] expr_view(a[i]) == expr_view(b[i]),
        0 <= n <= a.len(),
    ensures
        arguments_writes(a, n) == arguments_writes(b, n),
    decreases a, n,
{
    if n > 0 {
        lemma_same_argument_writes(a, b, n - 1);
        assert(expr_view(a[n - 1]) == expr_view(b[n - 1]));
        lemma_same_writes(a[n - 1], b[n - 1]);
    }
}

/// Expressions of the same structure share a fingerprint.
pub proof fn lemma_same_structure_same_fingerprint(a: Expr, b: Expr)
    requires
        a@ == b@,
    ensures
        fingerprint(a) == fingerprint(b),
{
    lemma_same_writes(a, b);
}

/// Expressions of the same structure may both be compiled or both not.
pub proof fn lemma_same_structure_same_compilability(a: Expr, b: Expr)
    requires
        a@ == b@,
    ensures
        is_compilable(a) == is_compilable(b),
    decreases a,
{
    match a {
        Expr::Number(_) => {},
        Expr::Variable(_) => {},
        Expr::Binary { left, op, right } => {
            lemma_same_structure_same_compilability(*left, *b->Binary_left);
            lemma_same_structure_same_compilability(*right, *b->Binary_right);
        },
        Expr::Assignment { name, value } => {
            lemma_same_structure_same_compilability(*value, *b->Assignment_value);
        },
        Expr::FunctionCall { name, args } => {},
        Expr::If { condition, true_expr, false_expr } => {
            lemma_same_structure_same_compilability(*condition, *b->If_condition);
            lemma_same_structure_same_compilability(*true_expr, *b->If_true_expr);
            lemma_same_structure_same_compilability(*false_expr, *b->If_false_expr);
        },
    }
}

/// Expressions of the same structure assign and mention variables alike.
pub proof fn lemma_same_structure_same_variables(a: Expr, b: Expr)
    requires
        a@ == b@,
    ensures
        forall|n: Seq<char>| assigns_name(a, n) == assigns_name(b, n),
        forall|n: Seq<char>| mentions_name(a, n) == mentions_name(b, n),
        assigns(a) == assigns(b),
        forall|used: bool| exposed(a, used) == exposed(b, used),
    decreases a,
{
    match a {
        Expr::Binary { left, op, right } => {
            lemma_same_structure_same_variables(*left, *b->Binary_left);
            lemma_same_structure_same_variables(*right, *b->Binary_right);
            assert forall|n: Seq<char>| assigns_name(a, n) == assigns_name(b, n) by {
                assert(assigns_name(*left, n) == assigns_name(*b->Binary_left, n));
                assert(assigns_name(*right, n) == assigns_name(*b->Binary_right, n));
            }
            assert forall|n: Seq<char>| mentions_name(a, n) == mentions_name(b, n) by {
                assert(mentions_name(*left, n) == mentions_name(*b->Binary_left, n));
                assert(mentions_name(*right, n) == mentions_name(*b->Binary_right, n));
            }
        },
        Expr::Assignment { name, value } => {
            lemma_same_structure_same_variables(*value, *b->Assignment_value);
            assert forall|n: Seq<char>| assigns_name(a, n) == assigns_name(b, n) by {
                assert(assigns_name(*value, n) == assigns_name(*b->Assignment_value, n));
            }
            assert forall|n: Seq<char>| mentions_name(a, n) == mentions_name(b, n) by {
                assert(mentions_name(*value, n) == mentions_name(*b->Assignment_value, n));
            }
            assert forall|used: bool| exposed(a, used) == exposed(b, used) by {
                assert(exposed(*value, used) == exposed(*b->Assignment_value, used));
            }
        },
        Expr::If { condition, true_expr, false_expr } => {
            lemma_same_structure_same_variables(*condition, *b->If_condition);
            lemma_same_structure_same_variables(*true_expr, *b->If_true_expr);
            lemma_same_structure_same_variables(*false_expr, *b->If_false_expr);
            assert forall|n: Seq<char>| assigns_name(a, n) == assigns_name(b, n) by {
                assert(assigns_name(*condition, n) == assigns_name(*b->If_condition, n));
                assert(assigns_name(*true_expr, n) == assigns_name(*b->If_true_expr, n));
                assert(assigns_name(*false_expr, n) == assigns_name(*b->If_false_expr, n));
            }
            assert forall|n: Seq<char>| mentions_name(a, n) == mentions_name(b, n) by {
                assert(mentions_name(*condition, n) == mentions_name(*b->If_condition, n));
                assert(mentions_name(*true_expr, n) == mentions_name(*b->If_true_expr, n));
                assert(mentions_name(*false_expr, n) == mentions_name(*b->If_false_expr, n));
            }
            assert forall|used: bool| exposed(a, used) == exposed(b, used) by {
                let second = used || assigns(*condition);
                assert(exposed(*condition, used) == exposed(*b->If_condition, used));
                assert(exposed(*true_expr, second) == exposed(*b->If_true_expr, second));
                assert(exposed(*false_expr, second) == exposed(*b->If_false_expr, second));
            }
        },
        _ => {},
    }
}

/// Expressions of the same structure are lowered to the same instructions.
pub proof fn lemma_same_structure_same_code(a: Expr, b: Expr, layout: Seq<Seq<char>>)
    requires
        a@ == b@,
    ensures
        same_lowering(lower(a, layout), lower(b, layout)),
    decreases a,
{
    match a {
        Expr::Number(_) => {},
        Expr::Variable(_) => {},
        Expr::Binary { left, op, right } => {
            lemma_same_structure_same_variables(*left, *b->Binary_left);
            lemma_same_structure_same_variables(*right, *b->Binary_right);
            lemma_same_structure_same_code(*right, *b->Binary_right, layout);
            if lower(*right, layout) is Ok {
                let r = lower(*right, layout).unwrap();
                lemma_same_structure_same_code(*left, *b->Binary_left, r.layout);
            }
        },
        Expr::Assignment { name, value } => {
            lemma_same_structure_same_code(*value, *b->Assignment_value, layout);
        },
        Expr::FunctionCall { name, args } => {},
        Expr::If { condition, true_expr, false_expr } => {
            lemma_same_structure_same_code(*condition, *b->If_condition, layout);
            if lower(*condition, layout) is Ok {
                let c = lower(*condition, layout).unwrap();
                lemma_same_structure_same_code(*true_expr, *b->If_true_expr, c.layout);
                if lower(*true_expr, c.layout) is Ok {
                    let t = lower(*true_expr, c.layout).unwrap();
                    lemma_same_structure_same_code(*false_expr, *b->If_false_expr, t.layout);
                }
            }
        },
    }
}

/// The generator produces the same code for expressions of the same structure.
pub proof fn lemma_same_structure_same_artifact(a: Expr, b: Expr)
    requires
        a@ == b@,
    ensures
        generated(a) == generated(b),
{
    lemma_same_structure_same_code(a, b, Seq::empty());
    lemma_same_structure_same_variables(a, b);
}

/// Expressions of the same structure have the same value and leave the same bindings.
pub proof fn lemma_same_structure_same_value(a: Expr, b: Expr, env: Map<Seq<char>, i64>)
    requires
        a@ == b@,
    ensures
        same_outcome(eval(a, env), eval(b, env)),
    decreases a,
{
    match a {
        Expr::Number(_) => {},
        Expr::Variable(_) => {},
        Expr::Binary { left, op, right } => {
            lemma_same_structure_same_value(*left, *b->Binary_left, env);
            if eval(*left, env).result is Ok {
                lemma_same_structure_same_value(
                    *right,
                    *b->Binary_right,
                    eval(*left, env).env,
                );
            }
        },
        Expr::Assignment { name, value } => {
            lemma_same_structure_same_value(*value, *b->Assignment_value, env);
        },
        Expr::FunctionCall { name, args } => {
            let other = b->FunctionCall_args;
            lemma_same_arguments(args@, other@);
            if args@.len() >= 1 {
                lemma_same_structure_same_value(args@[0], other@[0], env);
                if args@.len() >= 2 && eval(args@[0], env).result is Ok {
                    lemma_same_structure_same_value(
                        args@[1],
                        other@[1],
                        eval(args@[0], env).env,
                    );
                }
            }
        },
        Expr::If { condition, true_expr, false_expr } => {
            lemma_same_structure_same_value(*condition, *b->If_condition, env);
            if eval(*condition, env).result is Ok {
                let after = eval(*condition, env).env;
                lemma_same_structure_same_value(*true_expr, *b->If_true_expr, after);
                lemma_same_structure_same_value(*false_expr, *b->If_false_expr, after);
            }
        },
    }
}

/// Numbers with the same eight bytes are the same.
pub proof fn lemma_le64_is_injective(x: u64, y: u64)
    requires
        le64(x) == le64(y),
    ensures
        x == y,
{
    assert(le64(x)[0] == le64(y)[0]);
    assert(le64(x)[1] == le64(y)[1]);
    assert(le64(x)[2] == le64(y)[2]);
    assert(le64(x)[3] == le64(y)[3]);
    assert(le64(x)[4] == le64(y)[4]);
    assert(le64(x)[5] == le64(y)[5]);
    assert(le64(x)[6] == le64(y)[6]);
    assert(le64(x)[7] == le64(y)[7]);
    assert(x == y) by (bit_vector)
        requires
            (x & 0xff) as u8 == (y & 0xff) as u8,
            ((x >> 8) & 0xff) as u8 == ((y >> 8) & 0xff) as u8,
            ((x >> 16) & 0xff) as u8 == ((y >> 16) & 0xff) as u8,
            ((x >> 24) & 0xff) as u8 == ((y >> 24) & 0xff) as u8,
            ((x >> 32) & 0xff) as u8 == ((y >> 32) & 0xff) as u8,
            ((x >> 40) & 0xff) as u8 == ((y >> 40) & 0xff) as u8,
            ((x >> 48) & 0xff) as u8 == ((y >> 48) & 0xff) as u8,
            ((x >> 56) & 0xff) as u8 == ((y >> 56) & 0xff) as u8,
    ;
}

/// Signed numbers with the same bits are the same.
pub proof fn lemma_bits_are_injective(x: i64, y: i64)
    requires
        x as u64 == y as u64,
    ensures
        x == y,
{
    assert(x == y) by (bit_vector)
        requires
            x as u64 == y as u64,
    ;
}

/// Names with the same bytes are the same.
pub proof fn lemma_names_are_injective(a: Seq<char>, b: Seq<char>)
    requires
        encode_utf8(a) == encode_utf8(b),
    ensures
        a == b,
{
    encode_utf8_decode_utf8(a);
    encode_utf8_decode_utf8(b);
}

/// The writes that encode an expression tell its structure, whatever is written after
/// them: two expressions whose writes begin the same sequences of writes have the same
/// structure, and what follows their writes is the same.
#[verifier::rlimit(100)]
pub proof fn lemma_writes_tell_structure(
    a: Expr,
    b: Expr,
    after_a: Seq<Seq<u8>>,
    after_b: Seq<Seq<u8>>,
)
    requires
        structure_writes(a) + after_a == structure_writes(b) + after_b,
    ensures
        a@ == b@,
        after_a == after_b,
    decreases a,
{
    let wa = structure_writes(a) + after_a;
    let wb = structure_writes(b) + after_b;
    assert(wa[0] == structure_writes(a)[0]);
    assert(wb[0] == structure_writes(b)[0]);
    assert(structure_writes(a)[0][0] == structure_writes(b)[0][0]);
    match a {
        Expr::Number(n) => {
            assert(b is Number);
            let m = b->Number_0;
            assert(wa[1] == le64(n as u64));
            assert(wb[1] == le64(m as u64));
            lemma_le64_is_injective(n as u64, m as u64);
            lemma_bits_are_injective(n, m);
            assert(after_a =~= wa.skip(2));
            assert(after_b =~= wb.skip(2));
        },
        Expr::Variable(name) => {
            assert(b is Variable);
            let other = b->Variable_0;
            assert(wa[1] == encode_utf8(name@));
            assert(wb[1] == encode_utf8(other@));
            lemma_names_are_injective(name@, other@);
            assert(after_a =~= wa.skip(3));
            assert(after_b =~= wb.skip(3));
        },
        Expr::Binary { left, op, right } => {
            assert(b is Binary);
            assert(structure_writes(a)[0][1] == structure_writes(b)[0][1]);
            assert(op == b->Binary_op);
            let rest_a = structure_writes(*right) + after_a;
            let rest_b = structure_writes(*b->Binary_right) + after_b;
            assert(structure_writes(*left) + rest_a =~= wa.skip(1));
            assert(structure_writes(*b->Binary_left) + rest_b =~= wb.skip(1));
            lemma_writes_tell_structure(*left, *b->Binary_left, rest_a, rest_b);
            lemma_writes_tell_structure(*right, *b->Binary_right, after_a, after_b);
        },
        Expr::Assignment { name, value } => {
            assert(b is Assignment);
            let other = b->Assignment_name;
            assert(wa[1] == encode_utf8(name@));
            assert(wb[1] == encode_utf8(other@));
            lemma_names_are_injective(name@, other@);
            assert(structure_writes(*value) + after_a =~= wa.skip(3));
            assert(structure_writes(*b->Assignment_value) + after_b =~= wb.skip(3));
            lemma_writes_tell_structure(*value, *b->Assignment_value, after_a, after_b);
        },
        Expr::FunctionCall { name, args } => {
            assert(b is FunctionCall);
            let other_name = b->FunctionCall_name;
            let other = b->FunctionCall_args;
            assert(wa[1] == encode_utf8(name@));
            assert(wb[1] == encode_utf8(other_name@));
            lemma_names_are_injective(name@, other_name@);
            assert(wa[3] == le64(args.len() as u64));
            assert(wb[3] == le64(other.len() as u64));
            lemma_le64_is_injective(args.len() as u64, other.len() as u64);
            let n = args@.len() as int;
            assert(arguments_writes(args@, n) + after_a =~= wa.skip(4));
            assert(arguments_writes(other@, n) + after_b =~= wb.skip(4));
            lemma_argument_writes_tell_structure(args@, other@, n, after_a, after_b);
            lemma_views_of(args@, n);
            lemma_views_of(other@, n);
            assert(views_of(args@, n) =~= views_of(other@, n));
        },
        Expr::If { condition, true_expr, false_expr } => {
            assert(b is If);
            let tail_a = structure_writes(*false_expr) + after_a;
            let tail_b = structure_writes(*b->If_false_expr) + after_b;
            let rest_a = structure_writes(*true_expr) + tail_a;
            let rest_b = structure_writes(*b->If_true_expr) + tail_b;
            assert(structure_writes(*condition) + rest_a =~= wa.skip(1));
            assert(structure_writes(*b->If_condition) + rest_b =~= wb.skip(1));
            lemma_writes_tell_structure(*condition, *b->If_condition, rest_a, rest_b);
            lemma_writes_tell_structure(*true_expr, *b->If_true_expr, tail_a, tail_b);
            lemma_writes_tell_structure(*false_expr, *b->If_false_expr, after_a, after_b);
        },
    }
}

/// The writes that encode arguments tell their structure, whatever is written after
/// them.
pub proof fn lemma_argument_writes_tell_structure(
    a: Seq<Expr>,
    b: Seq<Expr>,
    n: int,
    after_a: Seq<Seq<u8>>,
    after_b: Seq<Seq<u8>>,
)
    requires
        0 <= n <= a.len(),
        n <= b.len(),
        arguments_writes(a, n) + after_a == arguments_writes(b, n) + after_b,
    ensures
        forall|i: int| 0 <= i < n ==> #[trigger] expr_view(a[i]) == expr_view(b[i]),
        after_a == after_b,
    decreases a, n,
{
    if n > 0 {
        let last_a = structure_writes(a[n - 1]) + after_a;
        let last_b = structure_writes(b[n - 1]) + after_b;
        assert(arguments_writes(a, n - 1) + last_a =~= arguments_writes(a, n) + after_a);
        assert(arguments_writes(b, n - 1) + last_b =~= arguments_writes(b, n) + after_b);
        lemma_argument_writes_tell_structure(a, b, n - 1, last_a, last_b);
        lemma_writes_tell_structure(a[n - 1], b[n - 1], after_a, after_b);
    } else {
        assert(arguments_writes(a, n) + after_a =~= after_a);
        assert(arguments_writes(b, n) + after_b =~= after_b);
    }
}

/// Expressions have the same encoding only if they have the same structure: where two
/// expressions of different structure share a fingerprint, the hash function has mapped
/// different inputs to one value.
pub proof fn lemma_same_writes_same_structure(a: Expr, b: Expr)
    requires
        structure_writes(a) == structure_writes(b),
    ensures
        a@ == b@,
{
    assert(structure_writes(a) + Seq::<Seq<u8>>::empty() =~= structure_writes(a));
    assert(structure_writes(b) + Seq::<Seq<u8>>::empty() =~= structure_writes(b));
    lemma_writes_tell_structure(a, b, Seq::empty(), Seq::empty());
}

} // verus!
