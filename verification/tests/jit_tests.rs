use jit_compiler::ast::Expr;
use jit_compiler::cache::HotspotCache;
use jit_compiler::codegen::X86CodeGenerator;
use jit_compiler::fingerprint::fingerprint_of;
use jit_compiler::grammar::ParseError;
use jit_compiler::interpreter::EvalError;
use jit_compiler::jit::{JitCompiler, JitError};
use jit_compiler::parser::Parser;

#[test]
fn test_jit_hotspot_detection() {
    let mut jit = JitCompiler::new();

    for i in 1..=12 {
        let result = jit.execute_string("1 + 2 * 3").unwrap();
        assert_eq!(result.value, 7);

        if i == 10 {
            assert!(jit.get_stats().jit_compilations > 0);
        }
    }

    let stats = jit.get_stats();
    assert!(stats.total_executions >= 12);
    assert!(stats.jit_compilations >= 1);
}

#[test]
fn test_different_expressions() {
    let mut jit = JitCompiler::new();

    jit.execute_string("1 + 2").unwrap();
    jit.execute_string("3 * 4").unwrap();
    jit.execute_string("1 + 2").unwrap();

    let cache_info = jit.get_jit_cache_info();
    assert_eq!(cache_info.len(), 2);

    let expr1_count = cache_info
        .iter()
        .find(|(_, count, _)| *count == 2)
        .map(|(_, count, _)| *count);
    assert_eq!(expr1_count, Some(2));
}

#[test]
fn test_variable_expressions() {
    let mut jit = JitCompiler::new();

    let result = jit.execute_string("x = 42").unwrap();
    assert_eq!(result.value, 42);

    for _ in 0..12 {
        let result = jit.execute_string("10 * 2 + 5").unwrap();
        assert_eq!(result.value, 25); // 10 * 2 + 5 = 25
    }

    assert!(jit.get_stats().jit_compilations > 0);
}

#[test]
fn test_integration() {
    let mut jit = JitCompiler::new();
    let mut value = |text: &str| jit.execute_string(text).unwrap().value;
    assert_eq!(value("1 + 2 * 3"), 7);
    assert_eq!(value("x = 42"), 42);
    assert_eq!(value("x + 8"), 50);
    assert_eq!(value("fib(8)"), 21);
    assert_eq!(value("fact(5)"), 120);
    assert_eq!(value("if(x > 40, x * 2, x / 2)"), 84);
    assert_eq!(value("(x + 5) * 2 - 10"), 84);
}

#[test]
fn test_jit_integration() {
    let mut jit = JitCompiler::new();

    let result = jit.execute_string("1 + 2 * 3").unwrap();
    assert_eq!(result.value, 7);

    for _ in 1..=12 {
        let result = jit.execute_string("2 + 3 * 4").unwrap();
        assert_eq!(result.value, 14);
    }

    jit.execute_string("5 + 6").unwrap();
    jit.execute_string("7 * 8").unwrap();
    jit.execute_string("5 + 6").unwrap();
    assert_eq!(jit.get_jit_cache_info().len(), 4);

    jit.execute_string("y = 10").unwrap();
    let result = jit.execute_string("y * 3 + 7").unwrap();
    assert_eq!(result.value, 37);
}

fn parse(text: &str) -> Expr {
    Parser::new(text).unwrap().parse().unwrap()
}

fn entry_of(jit: &JitCompiler, text: &str) -> Option<(u64, bool)> {
    let fp = fingerprint_of(&parse(text));
    jit.get_jit_cache_info()
        .into_iter()
        .find(|(hash, _, _)| *hash == fp)
        .map(|(_, count, compiled)| (count, compiled))
}

#[test]
fn the_fifth_submission_compiles_and_no_other() {
    let mut jit = JitCompiler::with_limits(5, 100);
    for i in 1..=4 {
        let result = jit.execute_string("2 + 3 * 4").unwrap();
        assert_eq!(result.value, 14);
        assert!(!result.was_jit_compiled);
        assert_eq!(jit.get_stats().jit_compilations, 0);
        assert_eq!(entry_of(&jit, "2 + 3 * 4"), Some((i, false)));
    }
    let fifth = jit.execute_string("2 + 3 * 4").unwrap();
    assert_eq!(fifth.value, 14);
    assert!(fifth.was_jit_compiled);
    assert_eq!(jit.get_stats().jit_compilations, 1);
    assert_eq!(entry_of(&jit, "2 + 3 * 4"), Some((5, true)));

    let sixth = jit.execute_string("2 + 3 * 4").unwrap();
    assert_eq!(sixth.value, 14);
    assert!(sixth.was_jit_compiled);
    assert!(sixth.execution_time_ns <= 10_000);
    assert_eq!(sixth.compilation_time_ns, None);
    for _ in 0..20 {
        assert_eq!(jit.execute_string("2 + 3 * 4").unwrap().value, 14);
    }
    assert_eq!(jit.get_stats().jit_compilations, 1);
    assert_eq!(jit.get_stats().total_executions, 26);
    assert_eq!(entry_of(&jit, "2 + 3 * 4"), Some((26, true)));
}

#[test]
fn the_threshold_is_the_count_that_compiles() {
    for threshold in [0u64, 1, 2, 3, 8] {
        let mut jit = JitCompiler::with_limits(threshold, 4);
        for i in 1..=10u64 {
            let result = jit.execute_string("6 * 7").unwrap();
            assert_eq!(result.value, 42);
            assert_eq!(result.was_jit_compiled, i >= threshold, "{} {}", threshold, i);
        }
        assert_eq!(jit.get_stats().jit_compilations, 1);
    }
}

#[test]
fn a_function_call_is_never_promoted() {
    let mut jit = JitCompiler::new();
    for i in 1..=20 {
        let result = jit.execute_string("fib(6)").unwrap();
        assert_eq!(result.value, 8);
        assert!(!result.was_jit_compiled);
        assert_eq!(entry_of(&jit, "fib(6)"), Some((i, false)));
    }
    assert_eq!(jit.get_stats().jit_compilations, 0);
    assert_eq!(jit.get_stats().total_executions, 20);
    assert!(!jit.is_jit_compilable(&parse("fib(6)")));
    assert!(!jit.is_jit_compilable(&parse("1 + if(x, fib(6), 2)")));
    assert!(jit.is_jit_compilable(&parse("x = if(a < b, a % b, 0 - a)")));
}

#[test]
fn a_failed_generation_is_not_tried_again() {
    // The expression may be compiled, but it reads a variable that it does not write,
    // so that the generator gives up.
    let mut jit = JitCompiler::new();
    assert_eq!(jit.execute_string("x = 10").unwrap().value, 10);
    assert!(X86CodeGenerator::new().generate(&parse("x * 3 + 7")).is_err());
    for i in 1..=12 {
        let result = jit.execute_string("x * 3 + 7").unwrap();
        assert_eq!(result.value, 37);
        assert!(!result.was_jit_compiled);
        assert_eq!(entry_of(&jit, "x * 3 + 7"), Some((i, false)));
    }
    assert_eq!(jit.get_stats().jit_compilations, 0);
    assert_eq!(jit.dump_machine_code(fingerprint_of(&parse("x * 3 + 7"))), None);
}

#[test]
fn a_full_cache_drops_the_entry_that_ran_least() {
    let mut jit = JitCompiler::with_limits(5, 2);
    jit.execute_string("1+1").unwrap();
    jit.execute_string("1+1").unwrap();
    jit.execute_string("2+2").unwrap();
    assert_eq!(jit.get_jit_cache_info().len(), 2);
    jit.execute_string("3+3").unwrap();
    assert_eq!(jit.get_jit_cache_info().len(), 2);
    assert_eq!(entry_of(&jit, "1+1"), Some((2, false)));
    assert_eq!(entry_of(&jit, "2+2"), None);
    assert_eq!(entry_of(&jit, "3+3"), Some((1, false)));

    // The other way round.
    let mut jit = JitCompiler::with_limits(5, 2);
    jit.execute_string("1+1").unwrap();
    jit.execute_string("2+2").unwrap();
    jit.execute_string("2+2").unwrap();
    jit.execute_string("3+3").unwrap();
    assert_eq!(entry_of(&jit, "1+1"), None);
    assert_eq!(entry_of(&jit, "2+2"), Some((2, false)));
    assert_eq!(entry_of(&jit, "3+3"), Some((1, false)));
}

#[test]
fn of_entries_that_ran_equally_often_the_lower_fingerprint_leaves() {
    let mut jit = JitCompiler::with_limits(5, 2);
    jit.execute_string("1+1").unwrap();
    jit.execute_string("2+2").unwrap();
    jit.execute_string("3+3").unwrap();
    let first = fingerprint_of(&parse("1+1"));
    let second = fingerprint_of(&parse("2+2"));
    let (kept, dropped) = if first < second { ("2+2", "1+1") } else { ("1+1", "2+2") };
    assert_eq!(entry_of(&jit, kept), Some((1, false)));
    assert_eq!(entry_of(&jit, dropped), None);
    assert_eq!(entry_of(&jit, "3+3"), Some((1, false)));
}

#[test]
fn the_cache_never_exceeds_its_limit() {
    for limit in [0usize, 1, 3] {
        let mut jit = JitCompiler::with_limits(2, limit);
        for i in 0..10 {
            let text = format!("{} + 1", i);
            assert_eq!(jit.execute_string(&text).unwrap().value, i + 1);
            let expected = std::cmp::min(i as usize + 1, std::cmp::max(limit, 1));
            assert_eq!(jit.get_jit_cache_info().len(), expected);
        }
    }
}

#[test]
fn an_evicted_expression_starts_again_as_a_newcomer() {
    let mut jit = JitCompiler::with_limits(2, 1);
    jit.execute_string("1 + 1").unwrap();
    assert!(jit.execute_string("1 + 1").unwrap().was_jit_compiled);
    jit.execute_string("2 + 2").unwrap();
    assert_eq!(entry_of(&jit, "1 + 1"), None);
    assert!(!jit.execute_string("1 + 1").unwrap().was_jit_compiled);
    assert!(jit.execute_string("1 + 1").unwrap().was_jit_compiled);
    assert_eq!(jit.get_stats().jit_compilations, 2);
}

#[test]
fn a_failed_evaluation_is_counted_as_an_execution() {
    let mut jit = JitCompiler::new();
    assert_eq!(
        jit.execute_string("1 / 0").map(|r| r.value),
        Err(JitError::Eval(EvalError::DivisionByZero))
    );
    assert_eq!(entry_of(&jit, "1 / 0"), Some((1, false)));
    assert_eq!(jit.get_stats().total_executions, 1);
    let spent = jit.get_stats().total_execution_time_ns;
    assert!(jit.execute_string("nowhere + 1").is_err());
    assert_eq!(jit.get_stats().total_executions, 2);
    assert!(jit.get_stats().total_execution_time_ns >= spent);
    assert_eq!(jit.execute_string("1 + 1").unwrap().value, 2);
    assert_eq!(jit.get_stats().total_executions, 3);
}

#[test]
fn a_text_that_is_no_expression_changes_nothing() {
    let mut jit = JitCompiler::new();
    jit.execute_string("a = 1").unwrap();
    match jit.execute_string("1 +") {
        Err(JitError::Parse(ParseError::UnexpectedEndOfInput)) => {}
        other => panic!("unexpected: {:?}", other.map(|r| r.value)),
    }
    match jit.execute_string("a ? 1") {
        Err(JitError::Parse(ParseError::UnexpectedCharacter { position: 2, character: '?' })) => {}
        other => panic!("unexpected: {:?}", other.map(|r| r.value)),
    }
    assert_eq!(jit.get_jit_cache_info().len(), 1);
    assert_eq!(jit.get_stats().total_executions, 1);
}

#[test]
fn the_compiled_path_and_the_interpreter_agree() {
    let texts = [
        "1 + 2 * 3",
        "(7 - 10) * (2 + 3)",
        "if(3 < 4, 10 - 1, 20)",
        "if(3 > 4, 10, 20 == 20)",
        "(n = 5) * 2",
        "if(0, 1, (m = 2) == 2) + 40",
        "if(k = 0 - 7, k * k - k, 0)",
        "9223372036854775807 + 9223372036854775807",
        "(a = 1) + (b = 2)",
        "x = 42",
        "total = 2 + 3 * 4",
        "if(p = 3, (q = p) * (r = 4), 0) - 1",
    ];
    for text in texts {
        let mut jit = JitCompiler::with_limits(3, 10);
        let interpreted = jit.execute_string(text).unwrap();
        assert!(!interpreted.was_jit_compiled);
        jit.execute_string(text).unwrap();
        let compiled = jit.execute_string(text).unwrap();
        assert!(compiled.was_jit_compiled, "{}", text);
        assert_eq!(compiled.value, interpreted.value, "{}", text);
        assert_eq!(
            compiled.environment.entries(),
            interpreted.environment.entries(),
            "{}",
            text
        );
    }
}

#[test]
fn what_the_generator_refuses_stays_interpreted() {
    for (text, value) in [
        ("100 / 7", 14),
        ("(0 - 100) / 7", -14),
        ("100 % 7", 2),
        ("(n = 6) + n", 12),
        ("(a = 1) + (a = 2)", 3),
        ("7 != 8", 1),
    ] {
        let mut jit = JitCompiler::with_limits(2, 10);
        for _ in 0..5 {
            let result = jit.execute_string(text).unwrap();
            assert_eq!(result.value, value, "{}", text);
            assert!(!result.was_jit_compiled, "{}", text);
        }
        assert_eq!(jit.get_stats().jit_compilations, 0);
        assert_eq!(jit.get_stats().total_executions, 5);
    }
}

#[test]
fn reset_empties_cache_counters_and_bindings() {
    let mut jit = JitCompiler::default();
    for _ in 0..6 {
        jit.execute_string("k = 3").unwrap();
    }
    assert_eq!(jit.get_stats().jit_compilations, 1);
    jit.reset_stats();
    assert_eq!(jit.get_stats().total_executions, 0);
    assert_eq!(jit.get_stats().jit_compilations, 0);
    assert_eq!(jit.get_stats().total_execution_time_ns, 0);
    assert_eq!(jit.get_stats().total_compilation_time_ns, 0);
    assert_eq!(jit.get_stats().hot_functions.len(), 0);
    assert_eq!(jit.get_jit_cache_info().len(), 0);
    assert!(jit.execute_string("k").is_err());
    // The threshold is as before.
    for i in 1..=5 {
        assert_eq!(jit.execute_string("2 * 2").unwrap().was_jit_compiled, i >= 5);
    }
}

#[test]
fn the_counters_add_up() {
    let mut jit = JitCompiler::new();
    let mut total = 0u64;
    for _ in 0..4 {
        total += jit.execute_string("1 + 1").unwrap().execution_time_ns;
    }
    assert_eq!(jit.get_stats().total_execution_time_ns, total);
    assert_eq!(jit.get_stats().total_compilation_time_ns, 0);
    assert_eq!(jit.get_stats().hot_functions.len(), 0);
}

#[test]
fn expressions_of_the_same_structure_share_a_fingerprint() {
    let jit = JitCompiler::new();
    assert_eq!(jit.hash_expr(&parse("1 + 2 * x")), jit.hash_expr(&parse("1+2*x")));
    assert_eq!(jit.hash_expr(&parse("(1 + 2)")), fingerprint_of(&parse("1 + 2")));
    let texts = [
        "1", "2", "x", "y", "1 + 2", "2 + 1", "1 - 2", "1 * 2", "1 / 2", "1 % 2", "1 == 2",
        "1 != 2", "1 < 2", "1 > 2", "1 <= 2", "1 >= 2", "x = 1", "y = 1", "x = 2", "f(1)",
        "f(1, 2)", "g(1)", "f()", "f(f(1))", "if(1, 2, 3)", "if(3, 2, 1)", "(1 + 2) + 3",
        "1 + (2 + 3)", "0 - 1", "xy", "x + y",
    ];
    for (i, a) in texts.iter().enumerate() {
        for b in &texts[i + 1..] {
            assert_ne!(fingerprint_of(&parse(a)), fingerprint_of(&parse(b)), "{} {}", a, b);
        }
    }
}

#[test]
fn a_compiled_entry_can_be_dumped() {
    let mut jit = JitCompiler::with_limits(1, 10);
    jit.execute_string("1 + 2").unwrap();
    let dump = jit.dump_machine_code(fingerprint_of(&parse("1 + 2"))).unwrap();
    assert_eq!(
        dump,
        "マシンコード (24バイト):\n\
         00000000: 55 48 89 e5 b8 02 00 00  00 50 b8 01 00 00 00 59 \n\
         00000010: 48 01 c8 48 89 ec 5d c3                           \n"
    );
    assert_eq!(jit.dump_machine_code(12345), None);
}

#[test]
fn the_cache_keeps_its_contract_by_itself() {
    let mut cache = HotspotCache::new(2, 2);
    assert_eq!(cache.len(), 0);
    assert_eq!(cache.record(7, true), (1, false));
    assert_eq!(cache.record(7, true), (2, true));
    assert_eq!(cache.record(7, true), (3, false));
    assert_eq!(cache.record(9, false), (1, false));
    assert_eq!(cache.record(9, false), (2, false));
    assert_eq!(cache.record(9, true), (3, false));
    assert_eq!(cache.evict_if_full(), Some(7));
    assert_eq!(cache.evict_if_full(), None);
    assert!(cache.lookup(7).is_none());
    let entry = cache.lookup(9).unwrap();
    assert_eq!(entry.expr_hash, 9);
    assert_eq!(entry.execution_count, 3);
    assert!(entry.compile_attempted);
    assert!(entry.compiled_function.is_none());

    let artifact = X86CodeGenerator::new().generate(&Expr::Number(1)).unwrap();
    let code = artifact.code.clone();
    assert!(!cache.install_artifact(7, artifact));
    let artifact = X86CodeGenerator::new().generate(&Expr::Number(1)).unwrap();
    assert!(cache.install_artifact(9, artifact));
    // Code that is installed is never replaced.
    let other = X86CodeGenerator::new().generate(&Expr::Number(2)).unwrap();
    assert!(!cache.install_artifact(9, other));
    assert_eq!(cache.lookup(9).unwrap().compiled_function.as_ref().unwrap().code, code);
    assert_eq!(cache.info(), vec![(9, 3, true)]);
    cache.clear();
    assert_eq!(cache.len(), 0);
}
