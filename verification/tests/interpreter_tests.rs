use jit_compiler::ast::{BinaryOp, Expr};
use jit_compiler::env::Environment;
use jit_compiler::interpreter::{
    binary_value, pacing_delay_micros, wrapping_quotient, wrapping_remainder, EvalError,
    Interpreter,
};
use jit_compiler::parser::Parser;

#[test]
fn test_number_evaluation() {
    let mut interpreter = Interpreter::new();
    let result = interpreter.evaluate(&Expr::Number(42)).unwrap();
    assert_eq!(result.value, 42);
    assert!(!result.was_jit_compiled);
}

#[test]
fn test_arithmetic_operations() {
    let mut interpreter = Interpreter::new();

    // Test addition
    let expr = Expr::Binary {
        left: Box::new(Expr::Number(5)),
        op: BinaryOp::Add,
        right: Box::new(Expr::Number(3)),
    };
    let result = interpreter.evaluate(&expr).unwrap();
    assert_eq!(result.value, 8);

    // Test multiplication with precedence
    let mut parser = Parser::new("2 + 3 * 4").unwrap();
    let expr = parser.parse().unwrap();
    let result = interpreter.evaluate(&expr).unwrap();
    assert_eq!(result.value, 14); // 2 + (3 * 4)
}

#[test]
fn test_variable_assignment_and_access() {
    let mut interpreter = Interpreter::new();

    // Assignment: x = 42
    let assignment = Expr::Assignment {
        name: "x".to_string(),
        value: Box::new(Expr::Number(42)),
    };
    let result = interpreter.evaluate(&assignment).unwrap();
    assert_eq!(result.value, 42);
    assert!(result.environment.contains_key("x"));
    assert_eq!(result.environment.get("x"), Some(42));

    // Variable access: x
    let access = Expr::Variable("x".to_string());
    let result = interpreter.evaluate(&access).unwrap();
    assert_eq!(result.value, 42);
}

#[test]
fn test_fibonacci_function() {
    let mut interpreter = Interpreter::new();

    let fib_call = Expr::FunctionCall {
        name: "fib".to_string(),
        args: vec![Expr::Number(5)],
    };

    let result = interpreter.evaluate(&fib_call).unwrap();
    assert_eq!(result.value, 5); // fib(5) = 5

    let fib_call = Expr::FunctionCall {
        name: "fib".to_string(),
        args: vec![Expr::Number(8)],
    };

    let result = interpreter.evaluate(&fib_call).unwrap();
    assert_eq!(result.value, 21); // fib(8) = 21
}

#[test]
fn test_factorial_function() {
    let mut interpreter = Interpreter::new();

    let fact_call = Expr::FunctionCall {
        name: "fact".to_string(),
        args: vec![Expr::Number(5)],
    };

    let result = interpreter.evaluate(&fact_call).unwrap();
    assert_eq!(result.value, 120); // 5! = 120
}

#[test]
fn test_if_expression() {
    let mut interpreter = Interpreter::new();

    // if(5 > 3, 10, 20) should return 10
    let if_expr = Expr::If {
        condition: Box::new(Expr::Binary {
            left: Box::new(Expr::Number(5)),
            op: BinaryOp::Greater,
            right: Box::new(Expr::Number(3)),
        }),
        true_expr: Box::new(Expr::Number(10)),
        false_expr: Box::new(Expr::Number(20)),
    };

    let result = interpreter.evaluate(&if_expr).unwrap();
    assert_eq!(result.value, 10);

    // if(2 > 5, 10, 20) should return 20
    let if_expr = Expr::If {
        condition: Box::new(Expr::Binary {
            left: Box::new(Expr::Number(2)),
            op: BinaryOp::Greater,
            right: Box::new(Expr::Number(5)),
        }),
        true_expr: Box::new(Expr::Number(10)),
        false_expr: Box::new(Expr::Number(20)),
    };

    let result = interpreter.evaluate(&if_expr).unwrap();
    assert_eq!(result.value, 20);
}

#[test]
fn test_complex_expression() {
    let mut interpreter = Interpreter::new();
    let _parser = Parser::new("x = 10, y = if(x > 5, x * 2, x + 1), y + 5").unwrap();

    // x = 10
    let mut parser1 = Parser::new("x = 10").unwrap();
    let expr1 = parser1.parse().unwrap();
    interpreter.evaluate(&expr1).unwrap();

    // y = if(x > 5, x * 2, x + 1)
    let mut parser2 = Parser::new("y = if(x > 5, x * 2, x + 1)").unwrap();
    let expr2 = parser2.parse().unwrap();
    let result2 = interpreter.evaluate(&expr2).unwrap();
    assert_eq!(result2.value, 20); // x * 2 = 10 * 2 = 20

    // y + 5
    let mut parser3 = Parser::new("y + 5").unwrap();
    let expr3 = parser3.parse().unwrap();
    let result3 = interpreter.evaluate(&expr3).unwrap();
    assert_eq!(result3.value, 25); // 20 + 5 = 25
}

fn run(interpreter: &mut Interpreter, text: &str) -> Result<i64, EvalError> {
    let expr = Parser::new(text).unwrap().parse().unwrap();
    interpreter.evaluate_without_delay(&expr).map(|r| r.value)
}

fn value(text: &str) -> Result<i64, EvalError> {
    run(&mut Interpreter::new(), text)
}

#[test]
fn operators_compute_what_they_denote() {
    assert_eq!(value("7 + 5"), Ok(12));
    assert_eq!(value("7 - 5"), Ok(2));
    assert_eq!(value("7 * 5"), Ok(35));
    assert_eq!(value("7 / 5"), Ok(1));
    assert_eq!(value("7 % 5"), Ok(2));
    assert_eq!(value("7 == 5"), Ok(0));
    assert_eq!(value("7 == 7"), Ok(1));
    assert_eq!(value("7 != 5"), Ok(1));
    assert_eq!(value("7 < 5"), Ok(0));
    assert_eq!(value("7 > 5"), Ok(1));
    assert_eq!(value("7 <= 7"), Ok(1));
    assert_eq!(value("7 >= 8"), Ok(0));
}

#[test]
fn division_rounds_toward_zero() {
    assert_eq!(value("(0 - 7) / 2"), Ok(-3));
    assert_eq!(value("7 / (0 - 2)"), Ok(-3));
    assert_eq!(value("(0 - 7) / (0 - 2)"), Ok(3));
    assert_eq!(value("(0 - 7) % 2"), Ok(-1));
    assert_eq!(value("7 % (0 - 2)"), Ok(1));
    assert_eq!(value("(0 - 7) % (0 - 2)"), Ok(-1));
}

#[test]
fn arithmetic_wraps_around_at_64_bits() {
    assert_eq!(binary_value(BinaryOp::Add, i64::MAX, 1), Ok(i64::MIN));
    assert_eq!(binary_value(BinaryOp::Sub, i64::MIN, 1), Ok(i64::MAX));
    assert_eq!(binary_value(BinaryOp::Mul, i64::MAX, 2), Ok(-2));
    assert_eq!(wrapping_quotient(i64::MIN, -1), i64::MIN);
    assert_eq!(wrapping_remainder(i64::MIN, -1), 0);
    assert_eq!(value("9223372036854775807 + 1"), Ok(i64::MIN));
}

#[test]
fn the_built_in_functions_compute_what_they_denote() {
    assert_eq!(value("fib(0)"), Ok(0));
    assert_eq!(value("fib(1)"), Ok(1));
    assert_eq!(value("fib(6)"), Ok(8));
    assert_eq!(value("fib(0 - 3)"), Ok(-3));
    assert_eq!(value("fact(0)"), Ok(1));
    assert_eq!(value("fact(10)"), Ok(3628800));
    assert_eq!(value("fact(21)"), Ok(-4249290049419214848));
    assert_eq!(value("fact(0 - 5)"), Ok(1));
    assert_eq!(value("pow(3, 4)"), Ok(81));
    assert_eq!(value("pow(7, 0)"), Ok(1));
    assert_eq!(value("pow(7, 0 - 1)"), Ok(0));
    assert_eq!(value("pow(2, 63)"), Ok(i64::MIN));
    assert_eq!(value("pow(2, 64)"), Ok(0));
    // Only the low 32 bits of the exponent count: 4294967297 is 2^32 + 1.
    assert_eq!(value("pow(3, 4294967297)"), Ok(3));
}

#[test]
fn each_evaluation_error_has_an_input() {
    assert_eq!(value("y + 1"), Err(EvalError::UndefinedVariable("y".to_string())));
    assert_eq!(value("1 / 0"), Err(EvalError::DivisionByZero));
    assert_eq!(value("1 % 0"), Err(EvalError::DivisionByZero));
    assert_eq!(value("sqrt(4)"), Err(EvalError::UnknownFunction("sqrt".to_string())));
    assert_eq!(
        value("fib(1, 2)"),
        Err(EvalError::ArityMismatch { name: "fib".to_string(), expected: 1, got: 2 })
    );
    assert_eq!(
        value("fact()"),
        Err(EvalError::ArityMismatch { name: "fact".to_string(), expected: 1, got: 0 })
    );
    assert_eq!(
        value("pow(2)"),
        Err(EvalError::ArityMismatch { name: "pow".to_string(), expected: 2, got: 1 })
    );
}

#[test]
fn the_left_operand_is_evaluated_first() {
    let mut interpreter = Interpreter::new();
    assert_eq!(run(&mut interpreter, "(x = 2) + x * 10"), Ok(22));
    // The arity is checked before any argument is evaluated.
    assert!(run(&mut interpreter, "fib(z = 1, 2)").is_err());
    assert_eq!(interpreter.get_environment().get("z"), None);
}

#[test]
fn an_assignment_made_before_an_error_stays() {
    let mut interpreter = Interpreter::new();
    assert_eq!(run(&mut interpreter, "(x = 5) / 0"), Err(EvalError::DivisionByZero));
    assert_eq!(interpreter.get_environment().get("x"), Some(5));
}

#[test]
fn only_the_taken_branch_is_evaluated() {
    let mut interpreter = Interpreter::new();
    assert_eq!(run(&mut interpreter, "if(0, a = 1, b = 2)"), Ok(2));
    assert_eq!(interpreter.get_environment().get("a"), None);
    assert_eq!(interpreter.get_environment().get("b"), Some(2));
    assert_eq!(run(&mut interpreter, "if(0 - 1, 1 / 1, 1 / 0)"), Ok(1));
}

#[test]
fn reset_and_set_variable_change_the_bindings() {
    let mut interpreter = Interpreter::new();
    interpreter.set_variable("n".to_string(), 9);
    assert_eq!(run(&mut interpreter, "n * n"), Ok(81));
    interpreter.reset();
    assert_eq!(
        run(&mut interpreter, "n"),
        Err(EvalError::UndefinedVariable("n".to_string()))
    );
    assert_eq!(Interpreter::default().get_environment().len(), 0);
}

#[test]
fn the_report_carries_the_bindings() {
    let mut interpreter = Interpreter::new();
    let expr = Parser::new("a = (b = 3) + 1").unwrap().parse().unwrap();
    let report = interpreter.evaluate(&expr).unwrap();
    assert_eq!(report.value, 4);
    assert_eq!(report.compilation_time_ns, None);
    assert_eq!(
        report.environment.entries(),
        vec![("b".to_string(), 3), ("a".to_string(), 4)]
    );
}

#[test]
fn an_environment_keeps_one_value_per_name() {
    let mut env = Environment::new();
    assert_eq!(env.len(), 0);
    assert_eq!(env.get("x"), None);
    env.set("x".to_string(), 1);
    env.set("y".to_string(), 2);
    env.set("x".to_string(), 3);
    assert_eq!(env.len(), 2);
    assert_eq!(env.get("x"), Some(3));
    assert_eq!(env.get("y"), Some(2));
    assert!(env.contains_key("y"));
    assert!(!env.contains_key("z"));
    assert_eq!(env.entries(), vec![("x".to_string(), 3), ("y".to_string(), 2)]);
    let copy = env.clone();
    env.set("y".to_string(), 5);
    assert_eq!(copy.get("y"), Some(2));
}

#[test]
fn a_function_call_is_paced_longer() {
    let call = Expr::FunctionCall { name: "fib".to_string(), args: vec![Expr::Number(1)] };
    assert_eq!(pacing_delay_micros(&call), 200);
    assert_eq!(pacing_delay_micros(&Expr::Number(1)), 50);
    assert_eq!(pacing_delay_micros(&Expr::Variable("fib".to_string())), 50);
}
