//! Why the order of the operands does not matter where the generator accepts a binary
//! operation: operands that share no assigned variable have the same values, and leave
//! the same bindings, whichever of them is evaluated first.

use crate::ast::Expr;
use crate::codegen::{assigns_name, lower, mentions_name, order_matters};
use crate::interpreter::eval;
use vstd::prelude::*;

verus! {

/// Whether an expression holds no function call.
pub open spec fn call_free(e: Expr) -> bool
    decreases e,
{
    match e {
        Expr::Number(_) => true,
        Expr::Variable(_) => true,
        Expr::Binary { left, op, right } => call_free(*left) && call_free(*right),
        Expr::Assignment { name, value } => call_free(*value),
        Expr::FunctionCall { name, args } => false,
        Expr::If { condition, true_expr, false_expr } => call_free(*condition) && call_free(
            *true_expr,
        ) && call_free(*false_expr),
    }
}

/// Whether two sets of bindings say the same of the name `n`.
pub open spec fn same_at(a: Map<Seq<char>, i64>, b: Map<Seq<char>, i64>, n: Seq<char>) -> bool {
    a.contains_key(n) == b.contains_key(n) && (a.contains_key(n) ==> a[n] == b[n])
}

/// Whether two sets of bindings say the same of every name that `e` reads or assigns.
pub open spec fn same_for(e: Expr, a: Map<Seq<char>, i64>, b: Map<Seq<char>, i64>) -> bool {
    forall|n: Seq<char>| mentions_name(e, n) ==> same_at(a, b, n)
}

/// An expression that the generator accepts holds no function call.
pub proof fn lemma_lowered_is_call_free(e: Expr, layout: Seq<Seq<char>>)
    requires
        lower(e, layout) is Ok,
    ensures
        call_free(e),
    decreases e,
{
    match e {
        Expr::Binary { left, op, right } => {
            lemma_lowered_is_call_free(*right, layout);
            lemma_lowered_is_call_free(*left, lower(*right, layout).unwrap().layout);
        },
        Expr::Assignment { name, value } => {
            lemma_lowered_is_call_free(*value, layout);
        },
        Expr::If { condition, true_expr, false_expr } => {
            lemma_lowered_is_call_free(*condition, layout);
            let c = lower(*condition, layout).unwrap().layout;
            lemma_lowered_is_call_free(*true_expr, c);
            lemma_lowered_is_call_free(*false_expr, lower(*true_expr, c).unwrap().layout);
        },
        _ => {},
    }
}

/// An expression that assigns a variable mentions it.
pub proof fn lemma_assigned_is_mentioned(e: Expr, n: Seq<char>)
    requires
        assigns_name(e, n),
    ensures
        mentions_name(e, n),
    decreases e,
{
    match e {
        Expr::Binary { left, op, right } => {
            if assigns_name(*left, n) {
                lemma_assigned_is_mentioned(*left, n);
            } else {
                lemma_assigned_is_mentioned(*right, n);
            }
        },
        Expr::Assignment { name, value } => {
            if name@ != n {
                lemma_assigned_is_mentioned(*value, n);
            }
        },
        Expr::If { condition, true_expr, false_expr } => {
            if assigns_name(*condition, n) {
                lemma_assigned_is_mentioned(*condition, n);
            } else if assigns_name(*true_expr, n) {
                lemma_assigned_is_mentioned(*true_expr, n);
            } else {
                lemma_assigned_is_mentioned(*false_expr, n);
            }
        },
        _ => {},
    }
}

/// An evaluation leaves every variable that the expression does not assign as it was.
pub proof fn lemma_unassigned_stays(e: Expr, env: Map<Seq<char>, i64>, n: Seq<char>)
    requires
        call_free(e),
        !assigns_name(e, n),
    ensures
        same_at(env, eval(e, env).env, n),
    decreases e,
{
    match e {
        Expr::Binary { left, op, right } => {
            lemma_unassigned_stays(*left, env, n);
            lemma_unassigned_stays(*right, eval(*left, env).env, n);
        },
        Expr::Assignment { name, value } => {
            lemma_unassigned_stays(*value, env, n);
        },
        Expr::If { condition, true_expr, false_expr } => {
            lemma_unassigned_stays(*condition, env, n);
            let c = eval(*condition, env).env;
            lemma_unassigned_stays(*true_expr, c, n);
            lemma_unassigned_stays(*false_expr, c, n);
        },
        _ => {},
    }
}

/// Under bindings that say the same of every variable that an expression mentions, the
/// expression has the same outcome, and the bindings that it leaves say the same of
/// every name of which they said the same before.
pub proof fn lemma_mentioned_decides(
    e: Expr,
    a: Map<Seq<char>, i64>,
    b: Map<Seq<char>, i64>,
    n: Seq<char>,
)
    requires
        call_free(e),
        same_for(e, a, b),
    ensures
        eval(e, a).result == eval(e, b).result,
        same_at(a, b, n) ==> same_at(eval(e, a).env, eval(e, b).env, n),
    decreases e,
{
    match e {
        Expr::Number(_) => {},
        Expr::Variable(name) => {
            assert(mentions_name(e, name@));
        },
        Expr::Binary { left, op, right } => {
            lemma_part_of_same(e, *left, a, b);
            lemma_mentioned_decides(*left, a, b, n);
            let la = eval(*left, a).env;
            let lb = eval(*left, b).env;
            assert forall|k: Seq<char>| mentions_name(*right, k) implies same_at(la, lb, k) by {
                assert(mentions_name(e, k));
                lemma_mentioned_decides(*left, a, b, k);
            }
            lemma_mentioned_decides(*right, la, lb, n);
        },
        Expr::Assignment { name, value } => {
            lemma_part_of_same(e, *value, a, b);
            lemma_mentioned_decides(*value, a, b, n);
        },
        Expr::FunctionCall { name, args } => {},
        Expr::If { condition, true_expr, false_expr } => {
            lemma_part_of_same(e, *condition, a, b);
            lemma_mentioned_decides(*condition, a, b, n);
            let ca = eval(*condition, a).env;
            let cb = eval(*condition, b).env;
            assert forall|k: Seq<char>|
                mentions_name(*true_expr, k) || mentions_name(*false_expr, k) implies same_at(
                ca,
                cb,
                k,
            ) by {
                assert(mentions_name(e, k));
                lemma_mentioned_decides(*condition, a, b, k);
            }
            lemma_mentioned_decides(*true_expr, ca, cb, n);
            lemma_mentioned_decides(*false_expr, ca, cb, n);
        },
    }
}

/// Bindings that say the same of what an expression mentions say the same of what a
/// part of it mentions.
pub proof fn lemma_part_of_same(
    e: Expr,
    part: Expr,
    a: Map<Seq<char>, i64>,
    b: Map<Seq<char>, i64>,
)
    requires
        same_for(e, a, b),
        forall|n: Seq<char>| mentions_name(part, n) ==> mentions_name(e, n),
    ensures
        same_for(part, a, b),
{
    assert forall|n: Seq<char>| mentions_name(part, n) implies same_at(a, b, n) by {
        assert(mentions_name(e, n));
    }
}

/// Where neither operand assigns a variable that the other mentions, each operand has
/// the same outcome after the other as before it, and both orders leave the same
/// bindings.
pub proof fn lemma_operands_commute(left: Expr, right: Expr, env: Map<Seq<char>, i64>)
    requires
        call_free(left),
        call_free(right),
        !order_matters(left, right),
    ensures
        eval(right, eval(left, env).env).result == eval(right, env).result,
        eval(left, eval(right, env).env).result == eval(left, env).result,
        eval(left, eval(right, env).env).env == eval(right, eval(left, env).env).env,
{
    let after_left = eval(left, env).env;
    let after_right = eval(right, env).env;
    let left_last = eval(left, after_right).env;
    let right_last = eval(right, after_left).env;
    assert forall|n: Seq<char>| mentions_name(right, n) implies same_at(env, after_left, n) by {
        lemma_unassigned_stays(left, env, n);
    }
    assert forall|n: Seq<char>| mentions_name(left, n) implies same_at(env, after_right, n) by {
        lemma_unassigned_stays(right, env, n);
    }
    let some = Seq::<char>::empty();
    lemma_mentioned_decides(right, env, after_left, some);
    lemma_mentioned_decides(left, env, after_right, some);
    assert forall|n: Seq<char>| same_at(left_last, right_last, n) by {
        if !assigns_name(right, n) {
            lemma_unassigned_stays(right, env, n);
            lemma_unassigned_stays(right, after_left, n);
            lemma_mentioned_decides(left, env, after_right, n);
        } else {
            lemma_assigned_is_mentioned(right, n);
            if assigns_name(left, n) {
                lemma_assigned_is_mentioned(left, n);
            }
            lemma_unassigned_stays(left, env, n);
            lemma_unassigned_stays(left, after_right, n);
            lemma_mentioned_decides(right, env, after_left, n);
        }
    }
    assert(left_last =~= right_last) by {
        assert forall|n: Seq<char>| left_last.contains_key(n) == right_last.contains_key(n) by {
            assert(same_at(left_last, right_last, n));
        }
        assert forall|n: Seq<char>| left_last.contains_key(n) implies left_last[n]
            == right_last[n] by {
            assert(same_at(left_last, right_last, n));
        }
    }
}

} // verus!
