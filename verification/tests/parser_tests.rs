use jit_compiler::ast::{BinaryOp, Expr};
use jit_compiler::grammar::ParseError;
use jit_compiler::lexer::TokenType;
use jit_compiler::parser::Parser;

#[test]
fn test_parse_number() {
    let mut parser = Parser::new("42").unwrap();
    let expr = parser.parse().unwrap();
    assert_eq!(expr, Expr::Number(42));
}

#[test]
fn test_parse_binary_expression() {
    let mut parser = Parser::new("1 + 2 * 3").unwrap();
    let expr = parser.parse().unwrap();

    // Should parse as 1 + (2 * 3) due to precedence
    match expr {
        Expr::Binary { left, op, right } => {
            assert_eq!(*left, Expr::Number(1));
            assert_eq!(op, BinaryOp::Add);
            match *right {
                Expr::Binary { left, op, right } => {
                    assert_eq!(*left, Expr::Number(2));
                    assert_eq!(op, BinaryOp::Mul);
                    assert_eq!(*right, Expr::Number(3));
                }
                _ => panic!("Expected binary expression"),
            }
        }
        _ => panic!("Expected binary expression"),
    }
}

#[test]
fn test_parse_assignment() {
    let mut parser = Parser::new("x = 42").unwrap();
    let expr = parser.parse().unwrap();

    match expr {
        Expr::Assignment { name, value } => {
            assert_eq!(name, "x");
            assert_eq!(*value, Expr::Number(42));
        }
        _ => panic!("Expected assignment"),
    }
}

#[test]
fn test_parse_function_call() {
    let mut parser = Parser::new("fib(10)").unwrap();
    let expr = parser.parse().unwrap();

    match expr {
        Expr::FunctionCall { name, args } => {
            assert_eq!(name, "fib");
            assert_eq!(args.len(), 1);
            assert_eq!(args[0], Expr::Number(10));
        }
        _ => panic!("Expected function call"),
    }
}

#[test]
fn test_parse_if_expression() {
    let mut parser = Parser::new("if(x > 5, x * 2, x + 1)").unwrap();
    let expr = parser.parse().unwrap();

    match expr {
        Expr::If { condition, true_expr, false_expr } => {
            // condition: x > 5
            match *condition {
                Expr::Binary { left, op, right } => {
                    assert_eq!(*left, Expr::Variable("x".to_string()));
                    assert_eq!(op, BinaryOp::Greater);
                    assert_eq!(*right, Expr::Number(5));
                }
                _ => panic!("Expected binary comparison"),
            }

            // true_expr: x * 2
            match *true_expr {
                Expr::Binary { left, op, right } => {
                    assert_eq!(*left, Expr::Variable("x".to_string()));
                    assert_eq!(op, BinaryOp::Mul);
                    assert_eq!(*right, Expr::Number(2));
                }
                _ => panic!("Expected binary expression"),
            }

            // false_expr: x + 1
            match *false_expr {
                Expr::Binary { left, op, right } => {
                    assert_eq!(*left, Expr::Variable("x".to_string()));
                    assert_eq!(op, BinaryOp::Add);
                    assert_eq!(*right, Expr::Number(1));
                }
                _ => panic!("Expected binary expression"),
            }
        }
        _ => panic!("Expected if expression"),
    }
}

fn parse(text: &str) -> Result<Expr, ParseError> {
    Parser::new(text).and_then(|mut parser| parser.parse())
}

fn number(n: i64) -> Box<Expr> {
    Box::new(Expr::Number(n))
}

fn binary(left: Box<Expr>, op: BinaryOp, right: Box<Expr>) -> Box<Expr> {
    Box::new(Expr::Binary { left, op, right })
}

#[test]
fn binary_operators_associate_to_the_left() {
    assert_eq!(
        parse("10 - 4 - 3").unwrap(),
        *binary(binary(number(10), BinaryOp::Sub, number(4)), BinaryOp::Sub, number(3))
    );
    assert_eq!(
        parse("8 / 4 % 3 * 2").unwrap(),
        *binary(
            binary(binary(number(8), BinaryOp::Div, number(4)), BinaryOp::Mod, number(3)),
            BinaryOp::Mul,
            number(2)
        )
    );
}

#[test]
fn levels_of_precedence_nest() {
    // 1 == 2 < 3 + 4 * 5  is  1 == (2 < (3 + (4 * 5)))
    assert_eq!(
        parse("1 == 2 < 3 + 4 * 5").unwrap(),
        *binary(
            number(1),
            BinaryOp::Equal,
            binary(
                number(2),
                BinaryOp::Less,
                binary(number(3), BinaryOp::Add, binary(number(4), BinaryOp::Mul, number(5)))
            )
        )
    );
    assert_eq!(
        parse("1 != 2 >= 3 <= 4 > 5").unwrap(),
        *binary(
            number(1),
            BinaryOp::NotEqual,
            binary(
                binary(
                    binary(number(2), BinaryOp::GreaterEq, number(3)),
                    BinaryOp::LessEq,
                    number(4)
                ),
                BinaryOp::Greater,
                number(5)
            )
        )
    );
}

#[test]
fn parentheses_override_precedence() {
    assert_eq!(
        parse("(1 + 2) * 3").unwrap(),
        *binary(binary(number(1), BinaryOp::Add, number(2)), BinaryOp::Mul, number(3))
    );
}

#[test]
fn a_minus_sign_subtracts_from_zero() {
    assert_eq!(parse("-5").unwrap(), *binary(number(0), BinaryOp::Sub, number(5)));
    assert_eq!(
        parse("--5").unwrap(),
        *binary(number(0), BinaryOp::Sub, binary(number(0), BinaryOp::Sub, number(5)))
    );
}

#[test]
fn assignment_associates_to_the_right() {
    assert_eq!(
        parse("a = b = 1").unwrap(),
        Expr::Assignment {
            name: "a".to_string(),
            value: Box::new(Expr::Assignment { name: "b".to_string(), value: number(1) }),
        }
    );
}

#[test]
fn a_call_takes_any_number_of_arguments() {
    assert_eq!(
        parse("f()").unwrap(),
        Expr::FunctionCall { name: "f".to_string(), args: vec![] }
    );
    assert_eq!(
        parse("pow(2, 1 + 2)").unwrap(),
        Expr::FunctionCall {
            name: "pow".to_string(),
            args: vec![Expr::Number(2), *binary(number(1), BinaryOp::Add, number(2))],
        }
    );
}

#[test]
fn what_follows_an_expression_is_left_unread() {
    assert_eq!(parse("1 2").unwrap(), Expr::Number(1));
    assert_eq!(parse("1 ; 2").unwrap(), Expr::Number(1));
}

#[test]
fn each_parse_error_has_an_input() {
    assert_eq!(
        parse("1 + #"),
        Err(ParseError::UnexpectedCharacter { position: 4, character: '#' })
    );
    assert_eq!(parse("1 = 2"), Err(ParseError::InvalidAssignmentTarget));
    assert_eq!(parse("f(1)(2)"), Err(ParseError::NotCallable));
    assert_eq!(parse("(1 + 2"), Err(ParseError::ExpectedRightParenAfterExpression));
    assert_eq!(parse("if 1"), Err(ParseError::ExpectedLeftParenAfterIf));
    assert_eq!(parse("if(1"), Err(ParseError::ExpectedCommaAfterCondition));
    assert_eq!(parse("if(1, 2"), Err(ParseError::ExpectedCommaAfterTrueExpression));
    assert_eq!(parse("if(1, 2, 3"), Err(ParseError::ExpectedRightParenAfterIf));
    assert_eq!(parse("f(1, 2"), Err(ParseError::ExpectedRightParenAfterArguments));
    assert_eq!(parse(""), Err(ParseError::UnexpectedEndOfInput));
    assert_eq!(parse("1 +"), Err(ParseError::UnexpectedEndOfInput));
    assert_eq!(parse("("), Err(ParseError::UnexpectedEndOfInput));
    assert_eq!(parse("f("), Err(ParseError::UnexpectedEndOfInput));
    match parse("1 + * 2") {
        Err(ParseError::UnexpectedToken(token)) => {
            assert_eq!(token.token_type, TokenType::Star);
            assert_eq!(token.lexeme, "*");
            assert_eq!(token.position, 4);
        }
        other => panic!("expected an unexpected token, got {:?}", other),
    }
}

#[test]
fn parse_continues_where_it_stopped() {
    let mut parser = Parser::new("1 2 3").unwrap();
    assert_eq!(parser.parse().unwrap(), Expr::Number(1));
    assert_eq!(parser.parse().unwrap(), Expr::Number(2));
    assert_eq!(parser.parse().unwrap(), Expr::Number(3));
    assert_eq!(parser.parse(), Err(ParseError::UnexpectedEndOfInput));
}
