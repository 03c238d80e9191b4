//! The grammar of the language, as a function from tokens to an expression.
//!
//! ```text
//! expression -> assignment
//! assignment -> IDENTIFIER "=" assignment | equality
//! equality   -> comparison ( ( "!=" | "==" ) comparison )*
//! comparison -> term ( ( ">" | ">=" | "<" | "<=" ) term )*
//! term       -> factor ( ( "-" | "+" ) factor )*
//! factor     -> unary ( ( "/" | "*" | "%" ) unary )*
//! unary      -> "-" unary | call
//! call       -> primary ( "(" arguments? ")" )*
//! primary    -> NUMBER | IDENTIFIER | "(" expression ")"
//!             | "if" "(" expression "," expression "," expression ")"
//! ```
//!
//! Binary operators associate to the left. `-x` stands for `0 - x`. Only an identifier
//! can be assigned to and only an identifier can be called.

use crate::ast::{BinaryOp, ExprView};
use crate::lexer::{Token, TokenType};
use vstd::prelude::*;

verus! {

/// Why a sequence of tokens is no expression.
#[derive(Debug, PartialEq)]
pub enum ParseError {
    /// The source text holds a character that starts no token.
    UnexpectedCharacter { position: usize, character: char },
    /// The left side of `=` is no identifier.
    InvalidAssignmentTarget,
    /// What stands before `(` is no identifier.
    NotCallable,
    /// An expression in parentheses is not closed.
    ExpectedRightParenAfterExpression,
    /// `if` is not followed by `(`.
    ExpectedLeftParenAfterIf,
    /// The condition of a conditional is not followed by `,`.
    ExpectedCommaAfterCondition,
    /// The true branch of a conditional is not followed by `,`.
    ExpectedCommaAfterTrueExpression,
    /// A conditional is not closed.
    ExpectedRightParenAfterIf,
    /// The arguments of a call are not closed.
    ExpectedRightParenAfterArguments,
    /// A token stands where an expression has to begin and begins none.
    UnexpectedToken(Token),
    /// The input ends where an expression has to begin.
    UnexpectedEndOfInput,
}

/// The outcome of parsing an expression: the expression or the reason there is none, and
/// the position of the next token to read.
pub struct Parsed {
    pub result: Result<ExprView, ParseError>,
    pub pos: int,
}

/// The outcome of parsing the arguments of a call.
pub struct ParsedArgs {
    pub result: Result<Seq<ExprView>, ParseError>,
    pub pos: int,
}

/// Whether no token is left to read at `pos`.
pub open spec fn at_end(ts: Seq<Token>, pos: int) -> bool {
    !(0 <= pos < ts.len()) || ts[pos].token_type is EOF
}

/// How many tokens are left from `pos` on.
pub open spec fn remaining(ts: Seq<Token>, pos: int) -> nat {
    if pos <= ts.len() {
        (ts.len() - pos) as nat
    } else {
        0
    }
}

/// The binary operator at `pos`, if the token there is one of the given level of
/// precedence: 0 for equality, 1 for comparison, 2 for sums, 3 for products.
pub open spec fn operator_at(ts: Seq<Token>, pos: int, level: nat) -> Option<BinaryOp> {
    if at_end(ts, pos) {
        None
    } else {
        match ts[pos].token_type {
            TokenType::NotEqual => if level == 0 {
                Some(BinaryOp::NotEqual)
            } else {
                None
            },
            TokenType::EqualEqual => if level == 0 {
                Some(BinaryOp::Equal)
            } else {
                None
            },
            TokenType::Greater => if level == 1 {
                Some(BinaryOp::Greater)
            } else {
                None
            },
            TokenType::GreaterEqual => if level == 1 {
                Some(BinaryOp::GreaterEq)
            } else {
                None
            },
            TokenType::Less => if level == 1 {
                Some(BinaryOp::Less)
            } else {
                None
            },
            TokenType::LessEqual => if level == 1 {
                Some(BinaryOp::LessEq)
            } else {
                None
            },
            TokenType::Minus => if level == 2 {
                Some(BinaryOp::Sub)
            } else {
                None
            },
            TokenType::Plus => if level == 2 {
                Some(BinaryOp::Add)
            } else {
                None
            },
            TokenType::Slash => if level == 3 {
                Some(BinaryOp::Div)
            } else {
                None
            },
            TokenType::Star => if level == 3 {
                Some(BinaryOp::Mul)
            } else {
                None
            },
            TokenType::Percent => if level == 3 {
                Some(BinaryOp::Mod)
            } else {
                None
            },
            _ => None,
        }
    }
}

/// What is returned where a parse did not move forward. This never happens: see
/// `lemma_expression_moves_forward` and the lemmas it rests on.
pub open spec fn stuck(pos: int) -> Parsed {
    Parsed { result: Err(ParseError::UnexpectedEndOfInput), pos }
}

/// `expression -> assignment`
pub open spec fn parse_expression(ts: Seq<Token>, pos: int) -> Parsed
    decreases remaining(ts, pos), 30nat,
{
    parse_assignment(ts, pos)
}

/// `assignment -> IDENTIFIER "=" assignment | equality`
pub open spec fn parse_assignment(ts: Seq<Token>, pos: int) -> Parsed
    decreases remaining(ts, pos), 29nat,
{
    let target = parse_binary(ts, pos, 0);
    match target.result {
        Err(_) => target,
        Ok(e) => if !at_end(ts, target.pos) && ts[target.pos].token_type is Equal {
            match e {
                ExprView::Variable(name) => if target.pos >= pos {
                    let value = parse_assignment(ts, target.pos + 1);
                    match value.result {
                        Err(_) => value,
                        Ok(v) => Parsed {
                            result: Ok(ExprView::Assignment { name, value: Box::new(v) }),
                            pos: value.pos,
                        },
                    }
                } else {
                    stuck(pos)
                },
                _ => Parsed {
                    result: Err(ParseError::InvalidAssignmentTarget),
                    pos: target.pos + 1,
                },
            }
        } else {
            target
        },
    }
}

/// The operands of the binary operators of a level: the expressions of the next level,
/// and unary expressions for products.
pub open spec fn parse_operand(ts: Seq<Token>, pos: int, level: nat) -> Parsed
    decreases remaining(ts, pos), (25 - 5 * level) as nat,
{
    if level == 3 {
        parse_unary(ts, pos)
    } else if level < 3 {
        parse_binary(ts, pos, level + 1)
    } else {
        stuck(pos)
    }
}

/// `operand ( operator operand )*` for the operators of a level.
pub open spec fn parse_binary(ts: Seq<Token>, pos: int, level: nat) -> Parsed
    decreases remaining(ts, pos), (27 - 5 * level) as nat,
{
    if level > 3 {
        stuck(pos)
    } else {
        let first = parse_operand(ts, pos, level);
        match first.result {
            Err(_) => first,
            Ok(e) => if first.pos >= pos {
                parse_binary_rest(ts, first.pos, level, e)
            } else {
                stuck(pos)
            },
        }
    }
}

/// `( operator operand )*` after `left`: the operators associate to the left.
pub open spec fn parse_binary_rest(ts: Seq<Token>, pos: int, level: nat, left: ExprView) -> Parsed
    decreases remaining(ts, pos), (26 - 5 * level) as nat,
{
    if level > 3 {
        stuck(pos)
    } else {
        match operator_at(ts, pos, level) {
            None => Parsed { result: Ok(left), pos },
            Some(op) => {
                let operand = parse_operand(ts, pos + 1, level);
                match operand.result {
                    Err(_) => operand,
                    Ok(right) => if operand.pos > pos {
                        parse_binary_rest(
                            ts,
                            operand.pos,
                            level,
                            ExprView::Binary { left: Box::new(left), op, right: Box::new(right) },
                        )
                    } else {
                        stuck(pos)
                    },
                }
            },
        }
    }
}

/// `unary -> "-" unary | call`
pub open spec fn parse_unary(ts: Seq<Token>, pos: int) -> Parsed
    decreases remaining(ts, pos), 5nat,
{
    if !at_end(ts, pos) && ts[pos].token_type is Minus {
        let operand = parse_unary(ts, pos + 1);
        match operand.result {
            Err(_) => operand,
            Ok(e) => Parsed {
                result: Ok(
                    ExprView::Binary {
                        left: Box::new(ExprView::Number(0)),
                        op: BinaryOp::Sub,
                        right: Box::new(e),
                    },
                ),
                pos: operand.pos,
            },
        }
    } else {
        parse_call(ts, pos)
    }
}

/// `call -> primary ( "(" arguments? ")" )*`
pub open spec fn parse_call(ts: Seq<Token>, pos: int) -> Parsed
    decreases remaining(ts, pos), 4nat,
{
    let callee = parse_primary(ts, pos);
    match callee.result {
        Err(_) => callee,
        Ok(e) => if callee.pos >= pos {
            parse_call_rest(ts, callee.pos, e)
        } else {
            stuck(pos)
        },
    }
}

/// `( "(" arguments? ")" )*` after `callee`.
pub open spec fn parse_call_rest(ts: Seq<Token>, pos: int, callee: ExprView) -> Parsed
    decreases remaining(ts, pos), 3nat,
{
    if !at_end(ts, pos) && ts[pos].token_type is LeftParen {
        match callee {
            ExprView::Variable(name) => {
                let arguments = parse_finish_call(ts, pos + 1);
                match arguments.result {
                    Err(e) => Parsed { result: Err(e), pos: arguments.pos },
                    Ok(args) => if arguments.pos > pos {
                        parse_call_rest(ts, arguments.pos, ExprView::FunctionCall { name, args })
                    } else {
                        stuck(pos)
                    },
                }
            },
            _ => Parsed { result: Err(ParseError::NotCallable), pos: pos + 1 },
        }
    } else {
        Parsed { result: Ok(callee), pos }
    }
}

/// `arguments? ")"` after the `(` of a call.
pub open spec fn parse_finish_call(ts: Seq<Token>, pos: int) -> ParsedArgs
    decreases remaining(ts, pos), 32nat,
{
    if !at_end(ts, pos) && ts[pos].token_type is RightParen {
        ParsedArgs { result: Ok(Seq::empty()), pos: pos + 1 }
    } else {
        let arguments = parse_arguments(ts, pos, Seq::empty());
        match arguments.result {
            Err(_) => arguments,
            Ok(args) => if !at_end(ts, arguments.pos)
                && ts[arguments.pos].token_type is RightParen {
                ParsedArgs { result: Ok(args), pos: arguments.pos + 1 }
            } else {
                ParsedArgs {
                    result: Err(ParseError::ExpectedRightParenAfterArguments),
                    pos: arguments.pos,
                }
            },
        }
    }
}

/// `expression ( "," expression )*` after the arguments `before`.
pub open spec fn parse_arguments(ts: Seq<Token>, pos: int, before: Seq<ExprView>) -> ParsedArgs
    decreases remaining(ts, pos), 31nat,
{
    let argument = parse_expression(ts, pos);
    match argument.result {
        Err(e) => ParsedArgs { result: Err(e), pos: argument.pos },
        Ok(a) => if !at_end(ts, argument.pos) && ts[argument.pos].token_type is Comma {
            if argument.pos >= pos {
                parse_arguments(ts, argument.pos + 1, before.push(a))
            } else {
                ParsedArgs { result: Err(ParseError::UnexpectedEndOfInput), pos }
            }
        } else {
            ParsedArgs { result: Ok(before.push(a)), pos: argument.pos }
        },
    }
}

/// `primary -> NUMBER | IDENTIFIER | "(" expression ")" | "if" "(" ... ")"`
pub open spec fn parse_primary(ts: Seq<Token>, pos: int) -> Parsed
    decreases remaining(ts, pos), 2nat,
{
    if at_end(ts, pos) {
        Parsed { result: Err(ParseError::UnexpectedEndOfInput), pos }
    } else {
        match ts[pos].token_type {
            TokenType::Number(n) => Parsed { result: Ok(ExprView::Number(n)), pos: pos + 1 },
            TokenType::Identifier(name) => Parsed {
                result: Ok(ExprView::Variable(name@)),
                pos: pos + 1,
            },
            TokenType::LeftParen => {
                let inner = parse_expression(ts, pos + 1);
                match inner.result {
                    Err(_) => inner,
                    Ok(e) => if !at_end(ts, inner.pos) && ts[inner.pos].token_type is RightParen {
                        Parsed { result: Ok(e), pos: inner.pos + 1 }
                    } else {
                        Parsed {
                            result: Err(ParseError::ExpectedRightParenAfterExpression),
                            pos: inner.pos,
                        }
                    },
                }
            },
            TokenType::If => parse_conditional(ts, pos + 1),
            _ => Parsed { result: Err(ParseError::UnexpectedToken(ts[pos])), pos: pos + 1 },
        }
    }
}

/// `"(" expression "," expression "," expression ")"` after `if`.
pub open spec fn parse_conditional(ts: Seq<Token>, pos: int) -> Parsed
    decreases remaining(ts, pos), 33nat,
{
    if at_end(ts, pos) || !(ts[pos].token_type is LeftParen) {
        Parsed { result: Err(ParseError::ExpectedLeftParenAfterIf), pos }
    } else {
        let condition = parse_expression(ts, pos + 1);
        match condition.result {
            Err(_) => condition,
            Ok(c) => if at_end(ts, condition.pos) || !(ts[condition.pos].token_type is Comma) {
                Parsed { result: Err(ParseError::ExpectedCommaAfterCondition), pos: condition.pos }
            } else if condition.pos < pos {
                stuck(pos)
            } else {
                let true_branch = parse_expression(ts, condition.pos + 1);
                match true_branch.result {
                    Err(_) => true_branch,
                    Ok(t) => if at_end(ts, true_branch.pos)
                        || !(ts[true_branch.pos].token_type is Comma) {
                        Parsed {
                            result: Err(ParseError::ExpectedCommaAfterTrueExpression),
                            pos: true_branch.pos,
                        }
                    } else if true_branch.pos < pos {
                        stuck(pos)
                    } else {
                        let false_branch = parse_expression(ts, true_branch.pos + 1);
                        match false_branch.result {
                            Err(_) => false_branch,
                            Ok(f) => if at_end(ts, false_branch.pos)
                                || !(ts[false_branch.pos].token_type is RightParen) {
                                Parsed {
                                    result: Err(ParseError::ExpectedRightParenAfterIf),
                                    pos: false_branch.pos,
                                }
                            } else {
                                Parsed {
                                    result: Ok(
                                        ExprView::If {
                                            condition: Box::new(c),
                                            true_expr: Box::new(t),
                                            false_expr: Box::new(f),
                                        },
                                    ),
                                    pos: false_branch.pos + 1,
                                }
                            },
                        }
                    },
                }
            },
        }
    }
}

/// Whether a parse from `pos` moved forward: it does not end before `pos`, and it ends
/// behind `pos` where it found an expression.
pub open spec fn moves_forward(p: Parsed, pos: int) -> bool {
    p.pos >= pos && (p.result is Ok ==> p.pos > pos)
}

/// The same for the arguments of a call.
pub open spec fn arguments_move_forward(p: ParsedArgs, pos: int) -> bool {
    p.pos >= pos && (p.result is Ok ==> p.pos > pos)
}

/// Parsing an expression moves forward.
pub proof fn lemma_expression_moves_forward(ts: Seq<Token>, pos: int)
    ensures
        moves_forward(parse_expression(ts, pos), pos),
    decreases remaining(ts, pos), 30nat,
{
    lemma_assignment_moves_forward(ts, pos);
}

/// Parsing an assignment moves forward.
pub proof fn lemma_assignment_moves_forward(ts: Seq<Token>, pos: int)
    ensures
        moves_forward(parse_assignment(ts, pos), pos),
    decreases remaining(ts, pos), 29nat,
{
    lemma_binary_moves_forward(ts, pos, 0);
    let target = parse_binary(ts, pos, 0);
    if target.result is Ok && !at_end(ts, target.pos) && ts[target.pos].token_type is Equal {
        lemma_assignment_moves_forward(ts, target.pos + 1);
    }
}

/// Parsing an operand moves forward.
pub proof fn lemma_operand_moves_forward(ts: Seq<Token>, pos: int, level: nat)
    requires
        level <= 3,
    ensures
        moves_forward(parse_operand(ts, pos, level), pos),
    decreases remaining(ts, pos), (25 - 5 * level) as nat,
{
    if level == 3 {
        lemma_unary_moves_forward(ts, pos);
    } else {
        lemma_binary_moves_forward(ts, pos, level + 1);
    }
}

/// Parsing the binary operations of a level moves forward.
pub proof fn lemma_binary_moves_forward(ts: Seq<Token>, pos: int, level: nat)
    requires
        level <= 3,
    ensures
        moves_forward(parse_binary(ts, pos, level), pos),
    decreases remaining(ts, pos), (27 - 5 * level) as nat,
{
    lemma_operand_moves_forward(ts, pos, level);
    let first = parse_operand(ts, pos, level);
    if first.result is Ok {
        lemma_binary_rest_moves_forward(ts, first.pos, level, first.result.unwrap());
    }
}

/// Parsing the rest of the binary operations of a level does not move backward, and it
/// ends in an expression or an error of an operand.
pub proof fn lemma_binary_rest_moves_forward(
    ts: Seq<Token>,
    pos: int,
    level: nat,
    left: ExprView,
)
    requires
        level <= 3,
    ensures
        parse_binary_rest(ts, pos, level, left).pos >= pos,
    decreases remaining(ts, pos), (26 - 5 * level) as nat,
{
    if operator_at(ts, pos, level) is Some {
        lemma_operand_moves_forward(ts, pos + 1, level);
        let operand = parse_operand(ts, pos + 1, level);
        if operand.result is Ok {
            lemma_binary_rest_moves_forward(
                ts,
                operand.pos,
                level,
                ExprView::Binary {
                    left: Box::new(left),
                    op: operator_at(ts, pos, level).unwrap(),
                    right: Box::new(operand.result.unwrap()),
                },
            );
        }
    }
}

/// Parsing a unary expression moves forward.
pub proof fn lemma_unary_moves_forward(ts: Seq<Token>, pos: int)
    ensures
        moves_forward(parse_unary(ts, pos), pos),
    decreases remaining(ts, pos), 5nat,
{
    if !at_end(ts, pos) && ts[pos].token_type is Minus {
        lemma_unary_moves_forward(ts, pos + 1);
    } else {
        lemma_call_moves_forward(ts, pos);
    }
}

/// Parsing a call moves forward.
pub proof fn lemma_call_moves_forward(ts: Seq<Token>, pos: int)
    ensures
        moves_forward(parse_call(ts, pos), pos),
    decreases remaining(ts, pos), 4nat,
{
    lemma_primary_moves_forward(ts, pos);
    let callee = parse_primary(ts, pos);
    if callee.result is Ok {
        lemma_call_rest_moves_forward(ts, callee.pos, callee.result.unwrap());
    }
}

/// Parsing the argument lists behind a callee does not move backward.
pub proof fn lemma_call_rest_moves_forward(ts: Seq<Token>, pos: int, callee: ExprView)
    ensures
        parse_call_rest(ts, pos, callee).pos >= pos,
    decreases remaining(ts, pos), 3nat,
{
    if !at_end(ts, pos) && ts[pos].token_type is LeftParen {
        if let ExprView::Variable(name) = callee {
            lemma_finish_call_moves_forward(ts, pos + 1);
            let arguments = parse_finish_call(ts, pos + 1);
            if arguments.result is Ok {
                lemma_call_rest_moves_forward(
                    ts,
                    arguments.pos,
                    ExprView::FunctionCall { name, args: arguments.result.unwrap() },
                );
            }
        }
    }
}

/// Parsing the arguments of a call and the `)` behind them moves forward.
pub proof fn lemma_finish_call_moves_forward(ts: Seq<Token>, pos: int)
    ensures
        arguments_move_forward(parse_finish_call(ts, pos), pos),
    decreases remaining(ts, pos), 32nat,
{
    if !(!at_end(ts, pos) && ts[pos].token_type is RightParen) {
        lemma_arguments_move_forward(ts, pos, Seq::empty());
    }
}

/// Parsing arguments moves forward.
pub proof fn lemma_arguments_move_forward(ts: Seq<Token>, pos: int, before: Seq<ExprView>)
    ensures
        arguments_move_forward(parse_arguments(ts, pos, before), pos),
    decreases remaining(ts, pos), 31nat,
{
    lemma_expression_moves_forward(ts, pos);
    let argument = parse_expression(ts, pos);
    if argument.result is Ok && !at_end(ts, argument.pos)
        && ts[argument.pos].token_type is Comma {
        lemma_arguments_move_forward(
            ts,
            argument.pos + 1,
            before.push(argument.result.unwrap()),
        );
    }
}

/// Parsing a primary expression moves forward.
pub proof fn lemma_primary_moves_forward(ts: Seq<Token>, pos: int)
    ensures
        moves_forward(parse_primary(ts, pos), pos),
    decreases remaining(ts, pos), 2nat,
{
    if !at_end(ts, pos) {
        if ts[pos].token_type is LeftParen {
            lemma_expression_moves_forward(ts, pos + 1);
        } else if ts[pos].token_type is If {
            lemma_conditional_moves_forward(ts, pos + 1);
        }
    }
}

/// Parsing what follows `if` does not move backward, and moves forward where it finds a
/// conditional.
pub proof fn lemma_conditional_moves_forward(ts: Seq<Token>, pos: int)
    ensures
        moves_forward(parse_conditional(ts, pos), pos),
    decreases remaining(ts, pos), 33nat,
{
    if !(at_end(ts, pos) || !(ts[pos].token_type is LeftParen)) {
        lemma_expression_moves_forward(ts, pos + 1);
        let condition = parse_expression(ts, pos + 1);
        if condition.result is Ok && !(at_end(ts, condition.pos) || !(
        ts[condition.pos].token_type is Comma)) {
            lemma_expression_moves_forward(ts, condition.pos + 1);
            let true_branch = parse_expression(ts, condition.pos + 1);
            if true_branch.result is Ok && !(at_end(ts, true_branch.pos) || !(
            ts[true_branch.pos].token_type is Comma)) {
                lemma_expression_moves_forward(ts, true_branch.pos + 1);
            }
        }
    }
}

} // verus!
