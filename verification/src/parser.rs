//! The parser: recursive descent over the tokens of a source text.

use crate::ast::{lemma_views_of, views_of, BinaryOp, Expr};
use crate::grammar::{
    at_end, operator_at, parse_arguments, parse_assignment, parse_binary, parse_binary_rest,
    parse_call, parse_call_rest, parse_conditional, parse_expression, parse_finish_call,
    parse_operand, parse_primary, parse_unary, remaining, ParseError, Parsed, ParsedArgs,
};
use crate::lexer::{is_lexable, is_tokenization, starts_token, token_start, Lexer, Token, TokenType};
use vstd::prelude::*;

verus! {

/// A number for each kind of token: two tokens are of the same kind exactly when their
/// numbers are equal.
pub open spec fn kind_code(t: TokenType) -> int {
    match t {
        TokenType::Number(_) => 0,
        TokenType::Identifier(_) => 1,
        TokenType::Plus => 2,
        TokenType::Minus => 3,
        TokenType::Star => 4,
        TokenType::Slash => 5,
        TokenType::Percent => 6,
        TokenType::Equal => 7,
        TokenType::EqualEqual => 8,
        TokenType::NotEqual => 9,
        TokenType::Less => 10,
        TokenType::Greater => 11,
        TokenType::LessEqual => 12,
        TokenType::GreaterEqual => 13,
        TokenType::LeftParen => 14,
        TokenType::RightParen => 15,
        TokenType::Comma => 16,
        TokenType::Semicolon => 17,
        TokenType::If => 18,
        TokenType::Whitespace => 19,
        TokenType::EOF => 20,
    }
}

/// The number of the kind of a token.
fn code_of_kind(t: &TokenType) -> (code: u8)
    ensures
        code == kind_code(*t),
{
    match t {
        TokenType::Number(_) => 0,
        TokenType::Identifier(_) => 1,
        TokenType::Plus => 2,
        TokenType::Minus => 3,
        TokenType::Star => 4,
        TokenType::Slash => 5,
        TokenType::Percent => 6,
        TokenType::Equal => 7,
        TokenType::EqualEqual => 8,
        TokenType::NotEqual => 9,
        TokenType::Less => 10,
        TokenType::Greater => 11,
        TokenType::LessEqual => 12,
        TokenType::GreaterEqual => 13,
        TokenType::LeftParen => 14,
        TokenType::RightParen => 15,
        TokenType::Comma => 16,
        TokenType::Semicolon => 17,
        TokenType::If => 18,
        TokenType::Whitespace => 19,
        TokenType::EOF => 20,
    }
}

/// The parser: the tokens of a source text and a position among them.
pub struct Parser {
    tokens: Vec<Token>,
    current: usize,
}

/// Whether a step of the parser from `before` to `after` with the result `r` is the
/// step that the grammar describes by `p`. A step never moves backward, and one that
/// yields an expression moves forward.
pub open spec fn follows(
    before: Parser,
    after: Parser,
    r: Result<Expr, ParseError>,
    p: Parsed,
) -> bool {
    &&& after.tokens() == before.tokens()
    &&& after.position() == p.pos
    &&& after.position() >= before.position()
    &&& match r {
        Ok(e) => p.result == Ok::<crate::ast::ExprView, ParseError>(e@) && after.position()
            > before.position(),
        Err(err) => p.result == Err::<crate::ast::ExprView, ParseError>(err),
    }
}

impl Parser {
    #[verifier::type_invariant]
    spec fn well_formed(&self) -> bool {
        &&& self.tokens@.len() > 0
        &&& self.current < self.tokens@.len()
        &&& self.tokens@.last().token_type is EOF
    }

    /// The tokens.
    pub closed spec fn tokens(&self) -> Seq<Token> {
        self.tokens@
    }

    /// The position of the next token to read.
    pub closed spec fn position(&self) -> int {
        self.current as int
    }

    /// A parser at the first token of `input`, if `input` can be cut into tokens: a
    /// character that starts no token is reported, the first such character.
    pub fn new(input: &str) -> (r: Result<Parser, ParseError>)
        ensures
            match r {
                Ok(parser) => {
                    &&& is_lexable(input@, 0)
                    &&& is_tokenization(input@, 0, parser.tokens())
                    &&& parser.position() == 0
                },
                Err(e) => {
                    &&& !is_lexable(input@, 0)
                    &&& e matches ParseError::UnexpectedCharacter { position, character }
                    &&& position < input@.len()
                    &&& character == input@[position as int]
                    &&& !starts_token(input@, position as int)
                    &&& exists|k: nat| #[trigger] token_start(input@, 0, k) == position
                },
            },
    {
        let mut lexer = Lexer::new(input);
        match lexer.try_tokenize() {
            Ok(tokens) => Ok(Parser { tokens, current: 0 }),
            Err(e) => Err(
                ParseError::UnexpectedCharacter { position: e.position, character: e.character },
            ),
        }
    }

    /// Parses an expression from the current position on.
    pub fn parse(&mut self) -> (r: Result<Expr, ParseError>)
        ensures
            follows(
                *old(self),
                *final(self),
                r,
                parse_expression(old(self).tokens(), old(self).position()),
            ),
    {
        self.expression()
    }

    /// `expression -> assignment`
    fn expression(&mut self) -> (r: Result<Expr, ParseError>)
        ensures
            follows(
                *old(self),
                *final(self),
                r,
                parse_expression(old(self).tokens(), old(self).position()),
            ),
        decreases remaining(old(self).tokens@, old(self).current as int), 30nat,
    {
        self.assignment()
    }

    /// `assignment -> IDENTIFIER "=" assignment | logical_or`
    fn assignment(&mut self) -> (r: Result<Expr, ParseError>)
        ensures
            follows(
                *old(self),
                *final(self),
                r,
                parse_assignment(old(self).tokens(), old(self).position()),
            ),
        decreases remaining(old(self).tokens@, old(self).current as int), 29nat,
    {
        let expr = self.logical_or()?;
        if self.match_token(&TokenType::Equal) {
            match expr {
                Expr::Variable(name) => {
                    let value = self.assignment()?;
                    Ok(Expr::Assignment { name, value: Box::new(value) })
                },
                _ => Err(ParseError::InvalidAssignmentTarget),
            }
        } else {
            Ok(expr)
        }
    }

    /// `logical_or -> logical_and`: the language has no operator at this level.
    fn logical_or(&mut self) -> (r: Result<Expr, ParseError>)
        ensures
            follows(
                *old(self),
                *final(self),
                r,
                parse_binary(old(self).tokens(), old(self).position(), 0),
            ),
        decreases remaining(old(self).tokens@, old(self).current as int), 28nat, 2nat,
    {
        self.logical_and()
    }

    /// `logical_and -> equality`: the language has no operator at this level.
    fn logical_and(&mut self) -> (r: Result<Expr, ParseError>)
        ensures
            follows(
                *old(self),
                *final(self),
                r,
                parse_binary(old(self).tokens(), old(self).position(), 0),
            ),
        decreases remaining(old(self).tokens@, old(self).current as int), 28nat, 1nat,
    {
        self.equality()
    }

    /// `equality -> comparison ( ( "!=" | "==" ) comparison )*`
    fn equality(&mut self) -> (r: Result<Expr, ParseError>)
        ensures
            follows(
                *old(self),
                *final(self),
                r,
                parse_binary(old(self).tokens(), old(self).position(), 0),
            ),
        decreases remaining(old(self).tokens@, old(self).current as int), 28nat, 0nat,
    {
        self.left_associative(0)
    }

    /// `comparison -> term ( ( ">" | ">=" | "<" | "<=" ) term )*`
    fn comparison(&mut self) -> (r: Result<Expr, ParseError>)
        ensures
            follows(
                *old(self),
                *final(self),
                r,
                parse_binary(old(self).tokens(), old(self).position(), 1),
            ),
        decreases remaining(old(self).tokens@, old(self).current as int), 23nat, 0nat,
    {
        self.left_associative(1)
    }

    /// `term -> factor ( ( "-" | "+" ) factor )*`
    fn term(&mut self) -> (r: Result<Expr, ParseError>)
        ensures
            follows(
                *old(self),
                *final(self),
                r,
                parse_binary(old(self).tokens(), old(self).position(), 2),
            ),
        decreases remaining(old(self).tokens@, old(self).current as int), 18nat, 0nat,
    {
        self.left_associative(2)
    }

    /// `factor -> unary ( ( "/" | "*" | "%" ) unary )*`
    fn factor(&mut self) -> (r: Result<Expr, ParseError>)
        ensures
            follows(
                *old(self),
                *final(self),
                r,
                parse_binary(old(self).tokens(), old(self).position(), 3),
            ),
        decreases remaining(old(self).tokens@, old(self).current as int), 13nat, 0nat,
    {
        self.left_associative(3)
    }

    /// An operand of the operators of `level`.
    fn operand(&mut self, level: u8) -> (r: Result<Expr, ParseError>)
        requires
            level <= 3,
        ensures
            follows(
                *old(self),
                *final(self),
                r,
                parse_operand(old(self).tokens(), old(self).position(), level as nat),
            ),
        decreases remaining(old(self).tokens@, old(self).current as int), (25 - 5 * level) as nat,
            0nat,
    {
        if level == 0 {
            self.comparison()
        } else if level == 1 {
            self.term()
        } else if level == 2 {
            self.factor()
        } else {
            self.unary()
        }
    }

    /// `operand ( operator operand )*` for the operators of `level`, which associate to
    /// the left.
    fn left_associative(&mut self, level: u8) -> (r: Result<Expr, ParseError>)
        requires
            level <= 3,
        ensures
            follows(
                *old(self),
                *final(self),
                r,
                parse_binary(old(self).tokens(), old(self).position(), level as nat),
            ),
        decreases remaining(old(self).tokens@, old(self).current as int), (27 - 5 * level) as nat,
            0nat,
    {
        proof {
            use_type_invariant(&*self);
        }
        let ghost ts = self.tokens@;
        let ghost start = self.current as int;
        let mut expr = self.operand(level)?;
        proof {
            use_type_invariant(&*self);
        }
        loop
            invariant_except_break
                parse_binary(ts, start, level as nat) == parse_binary_rest(
                    ts,
                    self.current as int,
                    level as nat,
                    expr@,
                ),
            invariant
                level <= 3,
                self.tokens@ == ts,
                ts == old(self).tokens@,
                start == old(self).current,
                start < self.current < ts.len(),
            ensures
                parse_binary(ts, start, level as nat) == (Parsed {
                    result: Ok(expr@),
                    pos: self.current as int,
                }),
            decreases remaining(ts, self.current as int),
        {
            let found = self.operator_here(level);
            if found.is_none() {
                break ;
            }
            let op = found.unwrap();
            self.advance();
            let right = self.operand(level)?;
            proof {
                use_type_invariant(&*self);
            }
            expr = Expr::Binary { left: Box::new(expr), op, right: Box::new(right) };
        }
        Ok(expr)
    }

    /// The binary operator at the current position, if the token there is one of the
    /// given level.
    fn operator_here(&self, level: u8) -> (op: Option<BinaryOp>)
        ensures
            op == operator_at(self.tokens@, self.current as int, level as nat),
    {
        proof {
            use_type_invariant(self);
        }
        match &self.tokens[self.current].token_type {
            TokenType::NotEqual => if level == 0 {
                Some(BinaryOp::NotEqual)
            } else {
                None
            },
            TokenType::EqualEqual => if level == 0 {
                Some(BinaryOp::Equal)
            } else {
                None
            },
            TokenType::Greater => if level == 1 {
                Some(BinaryOp::Greater)
            } else {
                None
            },
            TokenType::GreaterEqual => if level == 1 {
                Some(BinaryOp::GreaterEq)
            } else {
                None
            },
            TokenType::Less => if level == 1 {
                Some(BinaryOp::Less)
            } else {
                None
            },
            TokenType::LessEqual => if level == 1 {
                Some(BinaryOp::LessEq)
            } else {
                None
            },
            TokenType::Minus => if level == 2 {
                Some(BinaryOp::Sub)
            } else {
                None
            },
            TokenType::Plus => if level == 2 {
                Some(BinaryOp::Add)
            } else {
                None
            },
            TokenType::Slash => if level == 3 {
                Some(BinaryOp::Div)
            } else {
                None
            },
            TokenType::Star => if level == 3 {
                Some(BinaryOp::Mul)
            } else {
                None
            },
            TokenType::Percent => if level == 3 {
                Some(BinaryOp::Mod)
            } else {
                None
            },
            _ => None,
        }
    }

    /// `unary -> "-" unary | call`
    fn unary(&mut self) -> (r: Result<Expr, ParseError>)
        ensures
            follows(
                *old(self),
                *final(self),
                r,
                parse_unary(old(self).tokens(), old(self).position()),
            ),
        decreases remaining(old(self).tokens@, old(self).current as int), 5nat, 0nat,
    {
        if self.match_token(&TokenType::Minus) {
            let expr = self.unary()?;
            assert(Expr::Number(0)@ == crate::ast::ExprView::Number(0));
            Ok(
                Expr::Binary {
                    left: Box::new(Expr::Number(0)),
                    op: BinaryOp::Sub,
                    right: Box::new(expr),
                },
            )
        } else {
            self.call()
        }
    }

    /// `call -> primary ( "(" arguments? ")" )*`
    fn call(&mut self) -> (r: Result<Expr, ParseError>)
        ensures
            follows(
                *old(self),
                *final(self),
                r,
                parse_call(old(self).tokens(), old(self).position()),
            ),
        decreases remaining(old(self).tokens@, old(self).current as int), 4nat, 0nat,
    {
        proof {
            use_type_invariant(&*self);
        }
        let ghost ts = self.tokens@;
        let ghost start = self.current as int;
        let mut expr = self.primary()?;
        proof {
            use_type_invariant(&*self);
        }
        loop
            invariant_except_break
                parse_call(ts, start) == parse_call_rest(ts, self.current as int, expr@),
            invariant
                self.tokens@ == ts,
                ts == old(self).tokens@,
                start == old(self).current,
                start < self.current < ts.len(),
            ensures
                parse_call(ts, start) == (Parsed { result: Ok(expr@), pos: self.current as int }),
            decreases remaining(ts, self.current as int),
        {
            if !self.match_token(&TokenType::LeftParen) {
                break ;
            }
            match expr {
                Expr::Variable(name) => {
                    let args = self.finish_call()?;
                    proof {
                        use_type_invariant(&*self);
                    }
                    expr = Expr::FunctionCall { name, args };
                },
                _ => {
                    return Err(ParseError::NotCallable);
                },
            }
        }
        Ok(expr)
    }

    /// `primary -> NUMBER | IDENTIFIER | "(" expression ")" | "if" "(" ... ")"`
    fn primary(&mut self) -> (r: Result<Expr, ParseError>)
        ensures
            follows(
                *old(self),
                *final(self),
                r,
                parse_primary(old(self).tokens(), old(self).position()),
            ),
        decreases remaining(old(self).tokens@, old(self).current as int), 2nat, 0nat,
    {
        proof {
            use_type_invariant(&*self);
        }
        if self.is_at_end() {
            return Err(ParseError::UnexpectedEndOfInput);
        }
        let index = self.current;
        self.advance();
        match &self.tokens[index].token_type {
            TokenType::Number(n) => Ok(Expr::Number(*n)),
            TokenType::Identifier(name) => Ok(Expr::Variable(name.clone())),
            TokenType::LeftParen => {
                let expr = self.expression()?;
                if !self.match_token(&TokenType::RightParen) {
                    return Err(ParseError::ExpectedRightParenAfterExpression);
                }
                Ok(expr)
            },
            TokenType::If => self.conditional(),
            _ => Err(ParseError::UnexpectedToken(self.tokens[index].duplicate())),
        }
    }

    /// `"(" expression "," expression "," expression ")"` after `if`.
    fn conditional(&mut self) -> (r: Result<Expr, ParseError>)
        ensures
            follows(
                *old(self),
                *final(self),
                r,
                parse_conditional(old(self).tokens(), old(self).position()),
            ),
        decreases remaining(old(self).tokens@, old(self).current as int), 33nat, 0nat,
    {
        if !self.match_token(&TokenType::LeftParen) {
            return Err(ParseError::ExpectedLeftParenAfterIf);
        }
        let condition = self.expression()?;
        if !self.match_token(&TokenType::Comma) {
            return Err(ParseError::ExpectedCommaAfterCondition);
        }
        let true_expr = self.expression()?;
        if !self.match_token(&TokenType::Comma) {
            return Err(ParseError::ExpectedCommaAfterTrueExpression);
        }
        let false_expr = self.expression()?;
        if !self.match_token(&TokenType::RightParen) {
            return Err(ParseError::ExpectedRightParenAfterIf);
        }
        Ok(
            Expr::If {
                condition: Box::new(condition),
                true_expr: Box::new(true_expr),
                false_expr: Box::new(false_expr),
            },
        )
    }

    /// `arguments? ")"` after the `(` of a call.
    fn finish_call(&mut self) -> (r: Result<Vec<Expr>, ParseError>)
        ensures
            final(self).tokens@ == old(self).tokens@,
            final(self).current == parse_finish_call(
                old(self).tokens@,
                old(self).current as int,
            ).pos,
            final(self).current >= old(self).current,
            match r {
                Ok(args) => parse_finish_call(old(self).tokens@, old(self).current as int).result
                    == Ok::<Seq<crate::ast::ExprView>, ParseError>(
                    views_of(args@, args@.len() as int),
                ) && final(self).current > old(self).current,
                Err(e) => parse_finish_call(old(self).tokens@, old(self).current as int).result
                    == Err::<Seq<crate::ast::ExprView>, ParseError>(e),
            },
        decreases remaining(old(self).tokens@, old(self).current as int), 32nat, 0nat,
    {
        proof {
            use_type_invariant(&*self);
        }
        let ghost ts = self.tokens@;
        let ghost start = self.current as int;
        let mut args: Vec<Expr> = Vec::new();
        if !self.check(&TokenType::RightParen) {
            loop
                invariant_except_break
                    parse_arguments(ts, start, Seq::empty()) == parse_arguments(
                        ts,
                        self.current as int,
                        views_of(args@, args@.len() as int),
                    ),
                invariant
                    self.tokens@ == ts,
                    ts == old(self).tokens@,
                    start == old(self).current,
                    start <= self.current < ts.len(),
                    at_end(ts, start) || !(ts[start].token_type is RightParen),
                ensures
                    parse_arguments(ts, start, Seq::empty()) == (ParsedArgs {
                        result: Ok(views_of(args@, args@.len() as int)),
                        pos: self.current as int,
                    }),
                    start < self.current,
                decreases remaining(ts, self.current as int),
            {
                let ghost before = args@;
                let argument = self.expression()?;
                proof {
                    use_type_invariant(&*self);
                }
                args.push(argument);
                proof {
                    lemma_views_of(before, before.len() as int);
                    lemma_views_of(args@, args@.len() as int);
                    assert(views_of(args@, args@.len() as int) =~= views_of(
                        before,
                        before.len() as int,
                    ).push(argument@));
                }
                if !self.match_token(&TokenType::Comma) {
                    break ;
                }
            }
        }
        if !self.match_token(&TokenType::RightParen) {
            return Err(ParseError::ExpectedRightParenAfterArguments);
        }
        Ok(args)
    }

    /// Reads the next token if it is of the kind of `token_type`.
    fn match_token(&mut self, token_type: &TokenType) -> (matched: bool)
        ensures
            final(self).tokens@ == old(self).tokens@,
            matched == (!at_end(old(self).tokens@, old(self).current as int) && kind_code(
                old(self).tokens@[old(self).current as int].token_type,
            ) == kind_code(*token_type)),
            final(self).current == if matched {
                old(self).current + 1
            } else {
                old(self).current as int
            },
    {
        if self.check(token_type) {
            self.advance();
            true
        } else {
            false
        }
    }

    /// Whether the next token is of the kind of `token_type`. The end token is of no
    /// kind.
    fn check(&self, token_type: &TokenType) -> (r: bool)
        ensures
            r == (!at_end(self.tokens@, self.current as int) && kind_code(
                self.tokens@[self.current as int].token_type,
            ) == kind_code(*token_type)),
    {
        if self.is_at_end() {
            false
        } else {
            code_of_kind(&self.peek().token_type) == code_of_kind(token_type)
        }
    }

    /// Reads the next token, unless it is the end token.
    fn advance(&mut self)
        ensures
            final(self).tokens@ == old(self).tokens@,
            final(self).current == if at_end(old(self).tokens@, old(self).current as int) {
                old(self).current as int
            } else {
                old(self).current + 1
            },
    {
        proof {
            use_type_invariant(&*self);
        }
        if !self.is_at_end() {
            let len = self.tokens.len();
            self.current = self.current + 1;
        }
    }

    /// Whether the next token is the end token.
    fn is_at_end(&self) -> (r: bool)
        ensures
            r == at_end(self.tokens@, self.current as int),
    {
        matches!(self.peek().token_type, TokenType::EOF)
    }

    /// The next token.
    fn peek(&self) -> (token: &Token)
        ensures
            self.current < self.tokens@.len(),
            *token == self.tokens@[self.current as int],
    {
        proof {
            use_type_invariant(self);
        }
        &self.tokens[self.current]
    }
}

} // verus!
