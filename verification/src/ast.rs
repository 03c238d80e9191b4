//! The syntax tree of the expression language.

use crate::env::Environment;
use vstd::prelude::*;

verus! {

/// A binary operator of the language.
#[derive(Debug, Clone, Copy, PartialEq, Eq, Structural)]
pub enum BinaryOp {
    Add,
    Sub,
    Mul,
    Div,
    Mod,
    Equal,
    NotEqual,
    Less,
    Greater,
    LessEq,
    GreaterEq,
}

/// An expression: an owned tree whose composite nodes own their children.
#[derive(Debug, PartialEq)]
pub enum Expr {
    /// An integer literal, such as `42`.
    Number(i64),
    /// A reference to a variable, such as `x`.
    Variable(String),
    /// `left op right`.
    Binary { left: Box<Expr>, op: BinaryOp, right: Box<Expr> },
    /// `name = value`.
    Assignment { name: String, value: Box<Expr> },
    /// `name(args...)`.
    FunctionCall { name: String, args: Vec<Expr> },
    /// `if(condition, true_expr, false_expr)`.
    If { condition: Box<Expr>, true_expr: Box<Expr>, false_expr: Box<Expr> },
}

/// An expression as plain values: names as sequences of characters, arguments as a
/// sequence of expressions.
pub enum ExprView {
    Number(i64),
    Variable(Seq<char>),
    Binary { left: Box<ExprView>, op: BinaryOp, right: Box<ExprView> },
    Assignment { name: Seq<char>, value: Box<ExprView> },
    FunctionCall { name: Seq<char>, args: Seq<ExprView> },
    If { condition: Box<ExprView>, true_expr: Box<ExprView>, false_expr: Box<ExprView> },
}

/// The plain value of an expression.
pub open spec fn expr_view(e: Expr) -> ExprView
    decreases e,
{
    match e {
        Expr::Number(n) => ExprView::Number(n),
        Expr::Variable(name) => ExprView::Variable(name@),
        Expr::Binary { left, op, right } => ExprView::Binary {
            left: Box::new(expr_view(*left)),
            op,
            right: Box::new(expr_view(*right)),
        },
        Expr::Assignment { name, value } => ExprView::Assignment {
            name: name@,
            value: Box::new(expr_view(*value)),
        },
        Expr::FunctionCall { name, args } => ExprView::FunctionCall {
            name: name@,
            args: views_of(args@, args@.len() as int),
        },
        Expr::If { condition, true_expr, false_expr } => ExprView::If {
            condition: Box::new(expr_view(*condition)),
            true_expr: Box::new(expr_view(*true_expr)),
            false_expr: Box::new(expr_view(*false_expr)),
        },
    }
}

impl View for Expr {
    type V = ExprView;

    open spec fn view(&self) -> ExprView {
        expr_view(*self)
    }
}

/// The views of the first `n` of `args`, in order.
pub open spec fn views_of(args: Seq<Expr>, n: int) -> Seq<ExprView>
    decreases args, n,
{
    if n <= 0 || n > args.len() {
        Seq::empty()
    } else {
        views_of(args, n - 1).push(expr_view(args[n - 1]))
    }
}

/// The views of a sequence of expressions are the views of its members, one for one.
pub proof fn lemma_views_of(args: Seq<Expr>, n: int)
    requires
        0 <= n <= args.len(),
    ensures
        views_of(args, n).len() == n,
        forall|i: int| 0 <= i < n ==> #[trigger] views_of(args, n)[i] == args[i]@,
    decreases n,
{
    if n > 0 {
        lemma_views_of(args, n - 1);
    }
}

impl Expr {
    /// A copy of the same structure.
    pub fn duplicate(&self) -> (copy: Expr)
        ensures
            copy@ == self@,
        decreases self,
    {
        match self {
            Expr::Number(n) => Expr::Number(*n),
            Expr::Variable(name) => Expr::Variable(name.clone()),
            Expr::Binary { left, op, right } => Expr::Binary {
                left: Box::new(left.duplicate()),
                op: *op,
                right: Box::new(right.duplicate()),
            },
            Expr::Assignment { name, value } => Expr::Assignment {
                name: name.clone(),
                value: Box::new(value.duplicate()),
            },
            Expr::FunctionCall { name, args } => {
                let mut copies: Vec<Expr> = Vec::new();
                let mut i: usize = 0;
                while i < args.len()
                    invariant
                        *self is FunctionCall,
                        self->args == *args,
                        i <= args@.len(),
                        copies@.len() == i,
                        forall|k: int| 0 <= k < i ==> #[trigger] expr_view(copies@[k]) == expr_view(args@[k]),
                    decreases args@.len() - i,
                {
                    copies.push(args[i].duplicate());
                    i = i + 1;
                }
                proof {
                    lemma_views_of(copies@, copies@.len() as int);
                    lemma_views_of(args@, args@.len() as int);
                    assert(views_of(copies@, copies@.len() as int) =~= views_of(
                        args@,
                        args@.len() as int,
                    ));
                }
                Expr::FunctionCall { name: name.clone(), args: copies }
            },
            Expr::If { condition, true_expr, false_expr } => Expr::If {
                condition: Box::new(condition.duplicate()),
                true_expr: Box::new(true_expr.duplicate()),
                false_expr: Box::new(false_expr.duplicate()),
            },
        }
    }
}

impl Clone for Expr {
    /// A copy of the same structure.
    fn clone(&self) -> (copy: Expr)
        ensures
            copy@ == self@,
    {
        self.duplicate()
    }
}

/// What one execution reports.
#[derive(Debug, Clone)]
pub struct ExecutionResult {
    /// The value of the expression.
    pub value: i64,
    /// The bindings after the execution.
    pub environment: Environment,
    /// How long the evaluation took, in nanoseconds.
    pub execution_time_ns: u64,
    /// How long code generation took, where this execution reports one.
    pub compilation_time_ns: Option<u64>,
    /// Whether the expression ran from a compiled cache entry.
    pub was_jit_compiled: bool,
}

/// Counters over all executions since the last reset. Sums stop at `u64::MAX`.
#[derive(Debug, Clone)]
pub struct JitStats {
    pub total_executions: u64,
    pub jit_compilations: u64,
    pub total_execution_time_ns: u64,
    pub total_compilation_time_ns: u64,
    /// Execution counts by function name.
    pub hot_functions: Vec<(String, u64)>,
}

impl Default for JitStats {
    /// All counters at zero.
    fn default() -> (stats: JitStats)
        ensures
            stats.total_executions == 0,
            stats.jit_compilations == 0,
            stats.total_execution_time_ns == 0,
            stats.total_compilation_time_ns == 0,
            stats.hot_functions@.len() == 0,
    {
        JitStats {
            total_executions: 0,
            jit_compilations: 0,
            total_execution_time_ns: 0,
            total_compilation_time_ns: 0,
            hot_functions: Vec::new(),
        }
    }
}

} // verus!
