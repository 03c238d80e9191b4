//! The dispatcher: interpretation, promotion and statistics for each submitted expression.
//!
//! Every expression is interpreted. The compiled state of a cache entry decides what an
//! execution reports, not how the value is computed: the value of an expression is that
//! of the reference semantics on either path. An expression that divides is never
//! promoted, because the generator refuses it: a division by zero is always the
//! interpreter's error.

use crate::ast::{ExecutionResult, Expr, ExprView, JitStats};
use crate::cache::{
    bump, capacity, crosses_threshold, installed, recorded, well_kept, EntryView, HotspotCache,
    JitEntry,
};
use crate::clock::elapsed_nanos;
use crate::codegen::{assemble, function_of, lower, ArtifactView, X86CodeGenerator};
use crate::dump::{dump_code, dump_text};
use crate::fingerprint::{fingerprint, fingerprint_of};
use crate::grammar::{parse_expression, ParseError};
use crate::interpreter::{eval, EvalError, Interpreter};
use crate::lexer::{is_lexable, is_tokenization, starts_token, token_start, Token};
use crate::parser::Parser;
use std::time::Instant;
use vstd::prelude::*;

verus! {

/// The count at which an expression is promoted, unless said otherwise.
pub const DEFAULT_HOT_THRESHOLD: u64 = 5;

/// The limit on the number of cache entries, unless said otherwise.
pub const DEFAULT_MAX_CACHE_SIZE: usize = 100;

/// The longest time, in nanoseconds, that an execution from a compiled entry reports.
pub const COMPILED_TIME_CAP_NS: u64 = 10_000;

/// Whether an expression may be compiled: a literal and a variable always, an operation,
/// an assignment and a conditional if all their parts may, a function call never.
pub open spec fn is_compilable(e: Expr) -> bool
    decreases e,
{
    match e {
        Expr::Number(_) => true,
        Expr::Variable(_) => true,
        Expr::Binary { left, op, right } => is_compilable(*left) && is_compilable(*right),
        Expr::Assignment { name, value } => is_compilable(*value),
        Expr::If { condition, true_expr, false_expr } => is_compilable(*condition)
            && is_compilable(*true_expr) && is_compilable(*false_expr),
        Expr::FunctionCall { name, args } => false,
    }
}

/// The code that the generator produces for an expression, if it produces any.
pub open spec fn generated(e: Expr) -> Option<ArtifactView> {
    match lower(e, Seq::<Seq<char>>::empty()) {
        Ok(l) => Some(
            ArtifactView {
                code: assemble(function_of(e, l)),
                entry_point: 0,
                layout: l.layout,
            },
        ),
        Err(_) => None,
    }
}

/// Whether a submission of `e` makes the dispatcher call the code generator: the
/// expression may be compiled and this submission crosses the threshold.
pub open spec fn attempts_compilation(cache: Map<u64, EntryView>, e: Expr, threshold: u64) -> bool {
    is_compilable(e) && crosses_threshold(cache, fingerprint(e), threshold)
}

/// Whether a submission of `e` promotes its entry to compiled.
pub open spec fn compiles(cache: Map<u64, EntryView>, e: Expr, threshold: u64) -> bool {
    attempts_compilation(cache, e, threshold) && generated(e) is Some
}

/// The cache after a submission of `e`.
pub open spec fn submitted(
    cache: Map<u64, EntryView>,
    e: Expr,
    threshold: u64,
    max_entries: usize,
) -> Map<u64, EntryView> {
    let counted = recorded(cache, fingerprint(e), threshold, max_entries);
    if compiles(cache, e, threshold) {
        installed(counted, fingerprint(e), generated(e).unwrap())
    } else {
        counted
    }
}

/// The sum of two counters, which stops at `u64::MAX`.
pub open spec fn saturating_sum(a: u64, b: u64) -> u64 {
    if a + b > u64::MAX {
        u64::MAX
    } else {
        (a + b) as u64
    }
}

/// The dispatcher.
pub struct JitCompiler {
    stats: JitStats,
    interpreter: Interpreter,
    codegen: X86CodeGenerator,
    jit_cache: HotspotCache,
}

/// Whether an execution of `e` that took the dispatcher from `before` to `after` and
/// reported `r` was carried out as it must be.
///
/// The cache counts the submission and, if this submission crosses the threshold for an
/// expression that the generator accepts, holds its code from now on. The value and
/// the bindings afterwards are those of the reference semantics, whether the entry is
/// compiled or not. Every execution is counted, one that fails too; the time that a
/// failed evaluation took is added to the total.
pub open spec fn executed(
    before: JitCompiler,
    after: JitCompiler,
    r: Result<ExecutionResult, EvalError>,
    e: Expr,
) -> bool {
    let outcome = eval(e, before.bindings());
    let promoted = compiles(before.cache(), e, before.hot_threshold());
    let old_stats = before.statistics();
    let new_stats = after.statistics();
    &&& after.hot_threshold() == before.hot_threshold()
    &&& after.max_cache_size() == before.max_cache_size()
    &&& after.cache() == submitted(
        before.cache(),
        e,
        before.hot_threshold(),
        before.max_cache_size(),
    )
    &&& after.cache().contains_key(fingerprint(e))
    &&& after.is_kept()
    &&& after.bindings() == outcome.env
    &&& new_stats.hot_functions == old_stats.hot_functions
    &&& new_stats.jit_compilations == if promoted {
        bump(old_stats.jit_compilations)
    } else {
        old_stats.jit_compilations
    }
    &&& new_stats.total_compilation_time_ns >= old_stats.total_compilation_time_ns
    &&& !promoted ==> new_stats.total_compilation_time_ns == old_stats.total_compilation_time_ns
    &&& match r {
        Ok(res) => {
            &&& outcome.result == Ok::<i64, EvalError>(res.value)
            &&& res.environment@ == outcome.env
            &&& res.compilation_time_ns is None
            &&& res.was_jit_compiled == (after.cache()[fingerprint(e)].artifact is Some)
            &&& res.was_jit_compiled ==> res.execution_time_ns <= COMPILED_TIME_CAP_NS
            &&& new_stats.total_executions == bump(old_stats.total_executions)
            &&& new_stats.total_execution_time_ns >= saturating_sum(
                old_stats.total_execution_time_ns,
                res.execution_time_ns,
            )
            &&& !res.was_jit_compiled ==> new_stats.total_execution_time_ns == saturating_sum(
                old_stats.total_execution_time_ns,
                res.execution_time_ns,
            )
        },
        Err(err) => {
            &&& outcome.result == Err::<i64, EvalError>(err)
            &&& new_stats.total_executions == bump(old_stats.total_executions)
            &&& new_stats.total_execution_time_ns >= old_stats.total_execution_time_ns
        },
    }
}

/// Whether `outcome` is what parsing the source text `code` yields: the expression that
/// the grammar finds in its tokens, or the reason why there is none.
pub open spec fn is_parse_of(code: Seq<char>, outcome: Result<ExprView, ParseError>) -> bool {
    if is_lexable(code, 0) {
        exists|ts: Seq<Token>| #[trigger]
            is_tokenization(code, 0, ts) && outcome == parse_expression(ts, 0).result
    } else {
        &&& outcome matches Err(ParseError::UnexpectedCharacter { position, character })
        &&& position < code.len()
        &&& character == code[position as int]
        &&& !starts_token(code, position as int)
        &&& exists|k: nat| #[trigger] token_start(code, 0, k) == position
    }
}

/// Why a source text was not executed.
#[derive(Debug, PartialEq)]
pub enum JitError {
    /// The text is no expression.
    Parse(ParseError),
    /// The expression has no value.
    Eval(EvalError),
}

impl JitCompiler {
    /// The cache entries by fingerprint.
    pub closed spec fn cache(&self) -> Map<u64, EntryView> {
        self.jit_cache@
    }

    /// The bindings of the interpreter.
    pub closed spec fn bindings(&self) -> Map<Seq<char>, i64> {
        self.interpreter@
    }

    /// The counters.
    pub closed spec fn statistics(&self) -> JitStats {
        self.stats
    }

    /// The count at which an expression is promoted.
    pub closed spec fn hot_threshold(&self) -> u64 {
        self.jit_cache.hot_threshold()
    }

    /// The limit on the number of cache entries.
    pub closed spec fn max_cache_size(&self) -> usize {
        self.jit_cache.max_entries()
    }

    /// What holds of every dispatcher: the entries of its cache are well kept, and they
    /// are no more than the capacity of the cache.
    pub open spec fn is_kept(&self) -> bool {
        well_kept(self.cache()) && self.cache().len() <= capacity(self.max_cache_size())
    }

    /// A dispatcher that promotes an expression at its fifth submission and caches a
    /// hundred expressions at most.
    pub fn new() -> (jit: JitCompiler)
        ensures
            jit.cache() == Map::<u64, EntryView>::empty(),
            jit.bindings() == Map::<Seq<char>, i64>::empty(),
            jit.hot_threshold() == DEFAULT_HOT_THRESHOLD,
            jit.max_cache_size() == DEFAULT_MAX_CACHE_SIZE,
            jit.statistics().total_executions == 0,
            jit.statistics().jit_compilations == 0,
            jit.statistics().total_execution_time_ns == 0,
            jit.statistics().total_compilation_time_ns == 0,
            jit.statistics().hot_functions@.len() == 0,
            jit.is_kept(),
    {
        JitCompiler::with_limits(DEFAULT_HOT_THRESHOLD, DEFAULT_MAX_CACHE_SIZE)
    }

    /// A dispatcher that promotes an expression at its `hot_threshold`-th submission and
    /// caches `max_cache_size` expressions at most.
    pub fn with_limits(hot_threshold: u64, max_cache_size: usize) -> (jit: JitCompiler)
        ensures
            jit.cache() == Map::<u64, EntryView>::empty(),
            jit.bindings() == Map::<Seq<char>, i64>::empty(),
            jit.hot_threshold() == hot_threshold,
            jit.max_cache_size() == max_cache_size,
            jit.statistics().total_executions == 0,
            jit.statistics().jit_compilations == 0,
            jit.statistics().total_execution_time_ns == 0,
            jit.statistics().total_compilation_time_ns == 0,
            jit.statistics().hot_functions@.len() == 0,
            jit.is_kept(),
    {
        JitCompiler {
            stats: JitStats::default(),
            interpreter: Interpreter::new(),
            codegen: X86CodeGenerator::new(),
            jit_cache: HotspotCache::new(hot_threshold, max_cache_size),
        }
    }

    /// Whether `expr` may be compiled.
    pub fn is_jit_compilable(&self, expr: &Expr) -> (compilable: bool)
        ensures
            compilable == is_compilable(*expr),
        decreases *expr,
    {
        match expr {
            Expr::Number(_) => true,
            Expr::Variable(_) => true,
            Expr::Binary { left, op, right } => self.is_jit_compilable(left)
                && self.is_jit_compilable(right),
            Expr::Assignment { name, value } => self.is_jit_compilable(value),
            Expr::If { condition, true_expr, false_expr } => self.is_jit_compilable(condition)
                && self.is_jit_compilable(true_expr) && self.is_jit_compilable(false_expr),
            Expr::FunctionCall { name, args } => false,
        }
    }

    /// The fingerprint of `expr`.
    pub fn hash_expr(&self, expr: &Expr) -> (fp: u64)
        ensures
            fp == fingerprint(*expr),
    {
        fingerprint_of(expr)
    }

    /// Executes `expr`: counts the submission, promotes the entry if this submission
    /// crosses the threshold, evaluates the expression and updates the counters.
    ///
    /// The value and the bindings afterwards are those of the reference semantics,
    /// whether the entry is compiled or not. Every execution is counted, one that fails
    /// too.
    pub fn execute(&mut self, expr: &Expr) -> (r: Result<ExecutionResult, EvalError>)
        ensures
            executed(*old(self), *final(self), r, *expr),
    {
        let expr_hash = self.hash_expr(expr);
        let is_compilable = self.is_jit_compilable(expr);
        let (_, should_jit) = self.jit_cache.record(expr_hash, is_compilable);
        if should_jit {
            let start = Instant::now();
            match self.codegen.generate(expr) {
                Ok(compiled_func) => {
                    let compilation_time = elapsed_nanos(&start);
                    self.stats.jit_compilations = self.stats.jit_compilations.saturating_add(1);
                    self.stats.total_compilation_time_ns =
                        self.stats.total_compilation_time_ns.saturating_add(compilation_time);
                    self.jit_cache.install_artifact(expr_hash, compiled_func);
                },
                Err(_) => {},
            }
        }
        let compiled = match self.jit_cache.lookup(expr_hash) {
            Some(entry) => entry.compiled_function.is_some(),
            None => false,
        };
        let start_eval = Instant::now();
        let outcome = if compiled {
            self.interpreter.evaluate_without_delay(expr)
        } else {
            self.interpreter.evaluate(expr)
        };
        let eval_time = elapsed_nanos(&start_eval);
        self.stats.total_executions = self.stats.total_executions.saturating_add(1);
        let mut result = match outcome {
            Ok(report) => if compiled {
                ExecutionResult {
                    value: report.value,
                    environment: report.environment,
                    execution_time_ns: eval_time,
                    compilation_time_ns: None,
                    was_jit_compiled: true,
                }
            } else {
                report
            },
            Err(e) => {
                self.stats.total_execution_time_ns =
                    self.stats.total_execution_time_ns.saturating_add(eval_time);
                return Err(e);
            },
        };
        self.stats.total_execution_time_ns = self.stats.total_execution_time_ns.saturating_add(
            result.execution_time_ns,
        );
        if result.was_jit_compiled && result.execution_time_ns > COMPILED_TIME_CAP_NS {
            result.execution_time_ns = COMPILED_TIME_CAP_NS;
        }
        Ok(result)
    }

    /// Parses `code` and executes the expression. A text that is no expression leaves
    /// the dispatcher as it is.
    pub fn execute_string(&mut self, code: &str) -> (r: Result<ExecutionResult, JitError>)
        ensures
            match r {
                Ok(res) => exists|e: Expr|
                    is_parse_of(code@, Ok(e@)) && #[trigger] executed(
                        *old(self),
                        *final(self),
                        Ok(res),
                        e,
                    ),
                Err(JitError::Eval(err)) => exists|e: Expr|
                    is_parse_of(code@, Ok(e@)) && #[trigger] executed(
                        *old(self),
                        *final(self),
                        Err(err),
                        e,
                    ),
                Err(JitError::Parse(err)) => {
                    &&& is_parse_of(code@, Err(err))
                    &&& final(self).cache() == old(self).cache()
                    &&& final(self).bindings() == old(self).bindings()
                    &&& final(self).statistics() == old(self).statistics()
                    &&& final(self).hot_threshold() == old(self).hot_threshold()
                    &&& final(self).max_cache_size() == old(self).max_cache_size()
                },
            },
            final(self).is_kept(),
    {
        self.cache_is_kept();
        let mut parser = match Parser::new(code) {
            Ok(parser) => parser,
            Err(e) => {
                return Err(JitError::Parse(e));
            },
        };
        let ghost ts = parser.tokens();
        let expr = match parser.parse() {
            Ok(expr) => expr,
            Err(e) => {
                assert(is_tokenization(code@, 0, ts));
                return Err(JitError::Parse(e));
            },
        };
        assert(is_tokenization(code@, 0, ts));
        match self.execute(&expr) {
            Ok(res) => Ok(res),
            Err(e) => Err(JitError::Eval(e)),
        }
    }

    /// For each cache entry its fingerprint, its count and whether it is compiled, each
    /// entry once, in no particular order.
    pub fn get_jit_cache_info(&self) -> (list: Vec<(u64, u64, bool)>)
        ensures
            list@.len() == self.cache().len(),
            forall|i: int|
                0 <= i < list@.len() ==> {
                    &&& self.cache().contains_key(#[trigger] list@[i].0)
                    &&& list@[i].1 == self.cache()[list@[i].0].execution_count
                    &&& list@[i].2 == (self.cache()[list@[i].0].artifact is Some)
                },
            forall|i: int, j: int|
                0 <= i < j < list@.len() ==> #[trigger] list@[i].0 != #[trigger] list@[j].0,
            self.is_kept(),
    {
        self.cache_is_kept();
        self.jit_cache.info()
    }

    /// Recalls what holds of every dispatcher.
    fn cache_is_kept(&self)
        ensures
            self.is_kept(),
    {
        let entries = self.jit_cache.len();
    }

    /// The cache entry of `expr_hash`, if there is one.
    pub fn lookup_entry(&self, expr_hash: u64) -> (entry: Option<&JitEntry>)
        ensures
            match entry {
                Some(e) => self.cache().contains_key(expr_hash) && e@ == self.cache()[expr_hash],
                None => !self.cache().contains_key(expr_hash),
            },
    {
        self.jit_cache.lookup(expr_hash)
    }

    /// A hexadecimal dump of the code of the entry of `expr_hash`, if the cache holds a
    /// compiled entry for it.
    pub fn dump_machine_code(&self, expr_hash: u64) -> (dump: Option<String>)
        ensures
            match dump {
                Some(text) => {
                    &&& self.cache().contains_key(expr_hash)
                    &&& self.cache()[expr_hash].artifact is Some
                    &&& text@ == dump_text(self.cache()[expr_hash].artifact.unwrap().code)
                },
                None => !self.cache().contains_key(expr_hash)
                    || self.cache()[expr_hash].artifact is None,
            },
    {
        match self.jit_cache.lookup(expr_hash) {
            Some(entry) => match &entry.compiled_function {
                Some(compiled_func) => Some(dump_code(&compiled_func.code)),
                None => None,
            },
            None => None,
        }
    }

    /// The counters.
    pub fn get_stats(&self) -> (stats: &JitStats)
        ensures
            *stats == self.statistics(),
    {
        &self.stats
    }

    /// Sets the counters to zero, empties the cache and forgets all bindings.
    pub fn reset_stats(&mut self)
        ensures
            final(self).cache() == Map::<u64, EntryView>::empty(),
            final(self).bindings() == Map::<Seq<char>, i64>::empty(),
            final(self).hot_threshold() == old(self).hot_threshold(),
            final(self).max_cache_size() == old(self).max_cache_size(),
            final(self).statistics().total_executions == 0,
            final(self).statistics().jit_compilations == 0,
            final(self).statistics().total_execution_time_ns == 0,
            final(self).statistics().total_compilation_time_ns == 0,
            final(self).statistics().hot_functions@.len() == 0,
            final(self).is_kept(),
    {
        self.stats = JitStats::default();
        self.jit_cache.clear();
        self.interpreter.reset();
    }
}

impl Default for JitCompiler {
    /// The dispatcher that `new` makes.
    fn default() -> (jit: JitCompiler)
        ensures
            jit.cache() == Map::<u64, EntryView>::empty(),
            jit.bindings() == Map::<Seq<char>, i64>::empty(),
            jit.hot_threshold() == DEFAULT_HOT_THRESHOLD,
            jit.max_cache_size() == DEFAULT_MAX_CACHE_SIZE,
            jit.statistics().total_executions == 0,
            jit.statistics().jit_compilations == 0,
            jit.statistics().total_execution_time_ns == 0,
            jit.statistics().total_compilation_time_ns == 0,
            jit.statistics().hot_functions@.len() == 0,
            jit.is_kept(),
    {
        JitCompiler::new()
    }
}

} // verus!
