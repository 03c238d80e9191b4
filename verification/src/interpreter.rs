//! The tree-walking evaluator: the reference semantics of the language.

use crate::ast::{BinaryOp, ExecutionResult, Expr};
use crate::clock::elapsed_nanos;
use crate::env::Environment;
use crate::text::same_text;
use std::time::Instant;
use vstd::arithmetic::power::pow;
use vstd::prelude::*;
use vstd::wrapping::i64_specs;

verus! {

/// Why an expression has no value.
#[derive(Debug, PartialEq, Eq)]
pub enum EvalError {
    /// A variable was read that holds no value.
    UndefinedVariable(String),
    /// The right operand of `/` or `%` was zero.
    DivisionByZero,
    /// A function was called that the language does not have.
    UnknownFunction(String),
    /// A function was called with the wrong number of arguments.
    ArityMismatch { name: String, expected: usize, got: usize },
}

/// What evaluating an expression yields: its value or the reason it has none, and the
/// bindings afterwards. Assignments made before an error stay in place.
pub struct EvalOutcome {
    pub result: Result<i64, EvalError>,
    pub env: Map<Seq<char>, i64>,
}

/// The 64-bit two's complement integer that is congruent to `x` modulo 2^64.
pub open spec fn wrap64(x: int) -> i64 {
    i64_specs::signed_crop(x)
}

/// Integer division that rounds toward zero, for a divisor other than zero.
pub open spec fn truncating_div(x: int, d: int) -> int {
    if x >= 0 && d > 0 {
        x / d
    } else if x < 0 && d < 0 {
        (-x) / (-d)
    } else if x < 0 {
        -((-x) / d)
    } else {
        -(x / (-d))
    }
}

/// The remainder that goes with `truncating_div`: it has the sign of the dividend.
pub open spec fn truncating_rem(x: int, d: int) -> int {
    x - d * truncating_div(x, d)
}

/// 1 for true and 0 for false.
pub open spec fn truth(b: bool) -> i64 {
    if b {
        1
    } else {
        0
    }
}

/// The value of `left op right`. Arithmetic wraps around at 64 bits.
pub open spec fn apply_binary(op: BinaryOp, left: i64, right: i64) -> Result<i64, EvalError> {
    match op {
        BinaryOp::Add => Ok(wrap64(left + right)),
        BinaryOp::Sub => Ok(wrap64(left - right)),
        BinaryOp::Mul => Ok(wrap64(left * right)),
        BinaryOp::Div => if right == 0 {
            Err(EvalError::DivisionByZero)
        } else {
            Ok(wrap64(truncating_div(left as int, right as int)))
        },
        BinaryOp::Mod => if right == 0 {
            Err(EvalError::DivisionByZero)
        } else {
            Ok(wrap64(truncating_rem(left as int, right as int)))
        },
        BinaryOp::Equal => Ok(truth(left == right)),
        BinaryOp::NotEqual => Ok(truth(left != right)),
        BinaryOp::Less => Ok(truth(left < right)),
        BinaryOp::Greater => Ok(truth(left > right)),
        BinaryOp::LessEq => Ok(truth(left <= right)),
        BinaryOp::GreaterEq => Ok(truth(left >= right)),
    }
}

/// The remainder by cases on the signs, as the processor computes it.
pub proof fn lemma_truncating_rem(x: int, d: int)
    requires
        d != 0,
    ensures
        truncating_rem(x, d) == if x >= 0 && d > 0 {
            x % d
        } else if x < 0 && d < 0 {
            -((-x) % (-d))
        } else if x < 0 {
            -((-x) % d)
        } else {
            x % (-d)
        },
{
    if x >= 0 && d > 0 {
        assert(x - d * (x / d) == x % d) by (nonlinear_arith)
            requires
                d != 0,
        ;
    } else if x < 0 && d < 0 {
        assert(x - d * ((-x) / (-d)) == -((-x) % (-d))) by (nonlinear_arith)
            requires
                d != 0,
        ;
    } else if x < 0 {
        assert(x - d * (-((-x) / d)) == -((-x) % d)) by (nonlinear_arith)
            requires
                d != 0,
        ;
    } else {
        assert(x - d * (-(x / (-d))) == x % (-d)) by (nonlinear_arith)
            requires
                d != 0,
        ;
    }
}

/// The built-in `fib`: `n` itself up to 1, then the wrapping sum of the two before.
pub open spec fn fib_value(n: int) -> i64
    decreases n,
{
    if n <= 1 {
        n as i64
    } else {
        wrap64(fib_value(n - 1) + fib_value(n - 2))
    }
}

/// The built-in `fact`: 1 up to 1, then the wrapping product with the one before.
pub open spec fn fact_value(n: int) -> i64
    decreases n,
{
    if n <= 1 {
        1
    } else {
        wrap64(n * fact_value(n - 1))
    }
}

/// The built-in `pow`: 1 for exponent zero, 0 for a negative exponent, else the wrapping
/// power by the exponent's low 32 bits.
pub open spec fn power_value(base: i64, exp: i64) -> i64 {
    if exp == 0 {
        1
    } else if exp < 0 {
        0
    } else {
        wrap64(pow(base as int, (exp as u32) as nat))
    }
}

/// The reference semantics: the outcome of evaluating `e` under the bindings `env`.
pub open spec fn eval(e: Expr, env: Map<Seq<char>, i64>) -> EvalOutcome
    decreases e,
{
    match e {
        Expr::Number(n) => EvalOutcome { result: Ok(n), env },
        Expr::Variable(name) => if env.contains_key(name@) {
            EvalOutcome { result: Ok(env[name@]), env }
        } else {
            EvalOutcome { result: Err(EvalError::UndefinedVariable(name)), env }
        },
        Expr::Binary { left, op, right } => {
            let l = eval(*left, env);
            match l.result {
                Err(_) => l,
                Ok(lv) => {
                    let r = eval(*right, l.env);
                    match r.result {
                        Err(_) => r,
                        Ok(rv) => EvalOutcome { result: apply_binary(op, lv, rv), env: r.env },
                    }
                },
            }
        },
        Expr::Assignment { name, value } => {
            let v = eval(*value, env);
            match v.result {
                Err(_) => v,
                Ok(x) => EvalOutcome { result: Ok(x), env: v.env.insert(name@, x) },
            }
        },
        Expr::FunctionCall { name, args } => {
            if name@ == "fib"@ {
                if args.len() != 1 {
                    EvalOutcome {
                        result: Err(
                            EvalError::ArityMismatch { name, expected: 1, got: args.len() },
                        ),
                        env,
                    }
                } else {
                    let a = eval(args[0], env);
                    match a.result {
                        Err(_) => a,
                        Ok(n) => EvalOutcome { result: Ok(fib_value(n as int)), env: a.env },
                    }
                }
            } else if name@ == "fact"@ {
                if args.len() != 1 {
                    EvalOutcome {
                        result: Err(
                            EvalError::ArityMismatch { name, expected: 1, got: args.len() },
                        ),
                        env,
                    }
                } else {
                    let a = eval(args[0], env);
                    match a.result {
                        Err(_) => a,
                        Ok(n) => EvalOutcome { result: Ok(fact_value(n as int)), env: a.env },
                    }
                }
            } else if name@ == "pow"@ {
                if args.len() != 2 {
                    EvalOutcome {
                        result: Err(
                            EvalError::ArityMismatch { name, expected: 2, got: args.len() },
                        ),
                        env,
                    }
                } else {
                    let a = eval(args[0], env);
                    match a.result {
                        Err(_) => a,
                        Ok(base) => {
                            let b = eval(args[1], a.env);
                            match b.result {
                                Err(_) => b,
                                Ok(exp) => EvalOutcome {
                                    result: Ok(power_value(base, exp)),
                                    env: b.env,
                                },
                            }
                        },
                    }
                }
            } else {
                EvalOutcome { result: Err(EvalError::UnknownFunction(name)), env }
            }
        },
        Expr::If { condition, true_expr, false_expr } => {
            let c = eval(*condition, env);
            match c.result {
                Err(_) => c,
                Ok(cv) => if cv != 0 {
                    eval(*true_expr, c.env)
                } else {
                    eval(*false_expr, c.env)
                },
            }
        },
    }
}

/// `i64::wrapping_pow` from the standard library: the power, wrapped around at 64 bits.
pub assume_specification[ i64::wrapping_pow ](base: i64, exp: u32) -> (r: i64)
    ensures
        r == wrap64(pow(base as int, exp as nat)),
;

/// The wrapping sum of two 64-bit integers.
pub fn wrapping_sum(a: i64, b: i64) -> (r: i64)
    ensures
        r == wrap64(a + b),
{
    a.wrapping_add(b)
}

/// The wrapping difference of two 64-bit integers.
pub fn wrapping_difference(a: i64, b: i64) -> (r: i64)
    ensures
        r == wrap64(a - b),
{
    a.wrapping_sub(b)
}

/// The wrapping product of two 64-bit integers.
pub fn wrapping_product(a: i64, b: i64) -> (r: i64)
    ensures
        r == wrap64(a * b),
{
    a.wrapping_mul(b)
}

/// The quotient rounded toward zero, wrapped around at 64 bits.
pub fn wrapping_quotient(a: i64, b: i64) -> (r: i64)
    requires
        b != 0,
    ensures
        r == wrap64(truncating_div(a as int, b as int)),
{
    match a.checked_div(b) {
        Some(q) => q,
        None => i64::MIN,
    }
}

/// The remainder of the division rounded toward zero, wrapped around at 64 bits.
pub fn wrapping_remainder(a: i64, b: i64) -> (r: i64)
    requires
        b != 0,
    ensures
        r == wrap64(truncating_rem(a as int, b as int)),
{
    proof {
        let x = a as int;
        let d = b as int;
        lemma_truncating_rem(x, d);
        assert(x * -1 == -x && d * -1 == -d);
        if d > 0 {
            assert(0 <= x % d < d && 0 <= (-x) % d < d);
        } else {
            assert(0 <= x % (-d) < -d && 0 <= (-x) % (-d) < -d);
        }
        if a == i64::MIN && b == -1 {
            assert((-x) % 1 == 0);
        }
    }
    match a.checked_rem(b) {
        Some(q) => q,
        None => 0,
    }
}

/// Evaluates `left op right` on two values.
pub fn binary_value(op: BinaryOp, left: i64, right: i64) -> (r: Result<i64, EvalError>)
    ensures
        r == apply_binary(op, left, right),
{
    match op {
        BinaryOp::Add => Ok(wrapping_sum(left, right)),
        BinaryOp::Sub => Ok(wrapping_difference(left, right)),
        BinaryOp::Mul => Ok(wrapping_product(left, right)),
        BinaryOp::Div => {
            if right == 0 {
                Err(EvalError::DivisionByZero)
            } else {
                Ok(wrapping_quotient(left, right))
            }
        },
        BinaryOp::Mod => {
            if right == 0 {
                Err(EvalError::DivisionByZero)
            } else {
                Ok(wrapping_remainder(left, right))
            }
        },
        BinaryOp::Equal => Ok(if left == right { 1 } else { 0 }),
        BinaryOp::NotEqual => Ok(if left != right { 1 } else { 0 }),
        BinaryOp::Less => Ok(if left < right { 1 } else { 0 }),
        BinaryOp::Greater => Ok(if left > right { 1 } else { 0 }),
        BinaryOp::LessEq => Ok(if left <= right { 1 } else { 0 }),
        BinaryOp::GreaterEq => Ok(if left >= right { 1 } else { 0 }),
    }
}

/// How long a caller that paces interpreted evaluations waits before it evaluates `expr`,
/// in microseconds: longer before a function call than before anything else.
pub open spec fn pacing_delay(e: Expr) -> u64 {
    if e is FunctionCall {
        200
    } else {
        50
    }
}

/// How long a caller that paces interpreted evaluations waits before it evaluates `expr`,
/// in microseconds.
pub fn pacing_delay_micros(expr: &Expr) -> (micros: u64)
    ensures
        micros == pacing_delay(*expr),
{
    match expr {
        Expr::FunctionCall { name, args } => 200,
        _ => 50,
    }
}

/// The interpreter: an evaluator together with the bindings it evaluates under.
pub struct Interpreter {
    env: Environment,
}

impl View for Interpreter {
    type V = Map<Seq<char>, i64>;

    /// The current bindings.
    closed spec fn view(&self) -> Map<Seq<char>, i64> {
        self.env@
    }
}

/// Whether `report` is what an interpreted evaluation with the outcome `outcome` reports.
pub open spec fn reports(
    report: Result<ExecutionResult, EvalError>,
    outcome: EvalOutcome,
) -> bool {
    match report {
        Ok(res) => {
            &&& outcome.result == Ok::<i64, EvalError>(res.value)
            &&& res.environment@ == outcome.env
            &&& res.compilation_time_ns is None
            &&& !res.was_jit_compiled
        },
        Err(e) => outcome.result == Err::<i64, EvalError>(e),
    }
}

impl Interpreter {
    /// An interpreter without bindings.
    pub fn new() -> (interpreter: Interpreter)
        ensures
            interpreter@ == Map::<Seq<char>, i64>::empty(),
    {
        Interpreter { env: Environment::new() }
    }

    /// Evaluates `expr` under the current bindings and reports the value, the bindings
    /// afterwards and the time it took.
    pub fn evaluate_without_delay(&mut self, expr: &Expr) -> (report: Result<
        ExecutionResult,
        EvalError,
    >)
        ensures
            final(self)@ == eval(*expr, old(self)@).env,
            reports(report, eval(*expr, old(self)@)),
    {
        let start = Instant::now();
        let value = self.eval_expr(expr)?;
        let execution_time_ns = elapsed_nanos(&start);
        Ok(
            ExecutionResult {
                value,
                environment: self.env.clone(),
                execution_time_ns,
                compilation_time_ns: None,
                was_jit_compiled: false,
            },
        )
    }

    /// Evaluates `expr` as `evaluate_without_delay` does. A caller that paces interpreted
    /// evaluations waits for `pacing_delay_micros` before it calls this.
    pub fn evaluate(&mut self, expr: &Expr) -> (report: Result<ExecutionResult, EvalError>)
        ensures
            final(self)@ == eval(*expr, old(self)@).env,
            reports(report, eval(*expr, old(self)@)),
    {
        self.evaluate_without_delay(expr)
    }

    /// The value of `expr` under the current bindings, which it updates.
    pub fn eval_expr(&mut self, expr: &Expr) -> (r: Result<i64, EvalError>)
        ensures
            r == eval(*expr, old(self)@).result,
            final(self)@ == eval(*expr, old(self)@).env,
        decreases *expr,
    {
        match expr {
            Expr::Number(n) => Ok(*n),
            Expr::Variable(name) => {
                match self.env.get(name.as_str()) {
                    Some(v) => Ok(v),
                    None => Err(EvalError::UndefinedVariable(name.clone())),
                }
            },
            Expr::Binary { left, op, right } => {
                let left_val = self.eval_expr(left)?;
                let right_val = self.eval_expr(right)?;
                binary_value(*op, left_val, right_val)
            },
            Expr::Assignment { name, value } => {
                let val = self.eval_expr(value)?;
                self.env.set(name.clone(), val);
                Ok(val)
            },
            Expr::FunctionCall { name, args } => {
                if same_text(name.as_str(), "fib") {
                    if args.len() != 1 {
                        return Err(
                            EvalError::ArityMismatch {
                                name: name.clone(),
                                expected: 1,
                                got: args.len(),
                            },
                        );
                    }
                    let n = self.eval_expr(&args[0])?;
                    Ok(self.fibonacci(n))
                } else if same_text(name.as_str(), "fact") {
                    if args.len() != 1 {
                        return Err(
                            EvalError::ArityMismatch {
                                name: name.clone(),
                                expected: 1,
                                got: args.len(),
                            },
                        );
                    }
                    let n = self.eval_expr(&args[0])?;
                    Ok(self.factorial(n))
                } else if same_text(name.as_str(), "pow") {
                    if args.len() != 2 {
                        return Err(
                            EvalError::ArityMismatch {
                                name: name.clone(),
                                expected: 2,
                                got: args.len(),
                            },
                        );
                    }
                    let base = self.eval_expr(&args[0])?;
                    let exp = self.eval_expr(&args[1])?;
                    Ok(self.power(base, exp))
                } else {
                    Err(EvalError::UnknownFunction(name.clone()))
                }
            },
            Expr::If { condition, true_expr, false_expr } => {
                let cond_val = self.eval_expr(condition)?;
                if cond_val != 0 {
                    self.eval_expr(true_expr)
                } else {
                    self.eval_expr(false_expr)
                }
            },
        }
    }

    /// The built-in `fib`.
    pub fn fibonacci(&self, n: i64) -> (r: i64)
        ensures
            r == fib_value(n as int),
        decreases n,
    {
        if n <= 1 {
            n
        } else {
            wrapping_sum(self.fibonacci(n - 1), self.fibonacci(n - 2))
        }
    }

    /// The built-in `fact`.
    pub fn factorial(&self, n: i64) -> (r: i64)
        ensures
            r == fact_value(n as int),
        decreases n,
    {
        if n <= 1 {
            1
        } else {
            wrapping_product(n, self.factorial(n - 1))
        }
    }

    /// The built-in `pow`.
    pub fn power(&self, base: i64, exp: i64) -> (r: i64)
        ensures
            r == power_value(base, exp),
    {
        if exp == 0 {
            1
        } else if exp < 0 {
            0
        } else {
            base.wrapping_pow(
                #[verifier::truncate]
                (exp as u32),
            )
        }
    }

    /// Forgets all bindings.
    pub fn reset(&mut self)
        ensures
            final(self)@ == Map::<Seq<char>, i64>::empty(),
    {
        self.env = Environment::new();
    }

    /// The current bindings.
    pub fn get_environment(&self) -> (env: &Environment)
        ensures
            env@ == self@,
    {
        &self.env
    }

    /// Binds `name` to `value`.
    pub fn set_variable(&mut self, name: String, value: i64)
        ensures
            final(self)@ == old(self)@.insert(name@, value),
    {
        self.env.set(name, value);
    }
}

impl Default for Interpreter {
    /// An interpreter without bindings.
    fn default() -> (interpreter: Interpreter)
        ensures
            interpreter@ == Map::<Seq<char>, i64>::empty(),
    {
        Interpreter::new()
    }
}

} // verus!
