use jit_compiler::lexer::{LexError, Lexer, TokenType};

#[test]
fn test_basic_arithmetic() {
    let mut lexer = Lexer::new("1 + 2 * 3");
    let tokens = lexer.tokenize();

    assert_eq!(tokens.len(), 6); // 1, +, 2, *, 3, EOF
    assert_eq!(tokens[0].token_type, TokenType::Number(1));
    assert_eq!(tokens[1].token_type, TokenType::Plus);
    assert_eq!(tokens[2].token_type, TokenType::Number(2));
    assert_eq!(tokens[3].token_type, TokenType::Star);
    assert_eq!(tokens[4].token_type, TokenType::Number(3));
    assert_eq!(tokens[5].token_type, TokenType::EOF);
}

#[test]
fn test_variables_and_assignment() {
    let mut lexer = Lexer::new("x = 42");
    let tokens = lexer.tokenize();

    assert_eq!(tokens[0].token_type, TokenType::Identifier("x".to_string()));
    assert_eq!(tokens[1].token_type, TokenType::Equal);
    assert_eq!(tokens[2].token_type, TokenType::Number(42));
}

#[test]
fn test_function_call() {
    let mut lexer = Lexer::new("fib(10)");
    let tokens = lexer.tokenize();

    assert_eq!(tokens[0].token_type, TokenType::Identifier("fib".to_string()));
    assert_eq!(tokens[1].token_type, TokenType::LeftParen);
    assert_eq!(tokens[2].token_type, TokenType::Number(10));
    assert_eq!(tokens[3].token_type, TokenType::RightParen);
}

#[test]
fn lexemes_and_positions_follow_the_source() {
    let mut lexer = Lexer::new("  foo_1 <=  27");
    let tokens = lexer.tokenize();
    assert_eq!(tokens.len(), 4);
    assert_eq!(tokens[0].lexeme, "foo_1");
    assert_eq!(tokens[0].position, 2);
    assert_eq!(tokens[1].token_type, TokenType::LessEqual);
    assert_eq!(tokens[1].lexeme, "<=");
    assert_eq!(tokens[1].position, 8);
    assert_eq!(tokens[2].token_type, TokenType::Number(27));
    assert_eq!(tokens[2].lexeme, "27");
    assert_eq!(tokens[2].position, 12);
    assert_eq!(tokens[3].token_type, TokenType::EOF);
    assert_eq!(tokens[3].lexeme, "");
    assert_eq!(tokens[3].position, 14);
}

#[test]
fn every_operator_has_its_kind() {
    let mut lexer = Lexer::new("+ - * / % = == != < > <= >= ( ) , ;");
    let kinds: Vec<TokenType> = lexer.tokenize().into_iter().map(|t| t.token_type).collect();
    assert_eq!(
        kinds,
        vec![
            TokenType::Plus,
            TokenType::Minus,
            TokenType::Star,
            TokenType::Slash,
            TokenType::Percent,
            TokenType::Equal,
            TokenType::EqualEqual,
            TokenType::NotEqual,
            TokenType::Less,
            TokenType::Greater,
            TokenType::LessEqual,
            TokenType::GreaterEqual,
            TokenType::LeftParen,
            TokenType::RightParen,
            TokenType::Comma,
            TokenType::Semicolon,
            TokenType::EOF,
        ]
    );
}

#[test]
fn if_is_a_keyword_and_iffy_is_not() {
    let mut lexer = Lexer::new("if iffy _if");
    let tokens = lexer.tokenize();
    assert_eq!(tokens[0].token_type, TokenType::If);
    assert_eq!(tokens[1].token_type, TokenType::Identifier("iffy".to_string()));
    assert_eq!(tokens[2].token_type, TokenType::Identifier("_if".to_string()));
}

#[test]
fn a_number_that_does_not_fit_is_zero() {
    let mut lexer = Lexer::new("9223372036854775807 9223372036854775808 99999999999999999999");
    let tokens = lexer.tokenize();
    assert_eq!(tokens[0].token_type, TokenType::Number(i64::MAX));
    assert_eq!(tokens[1].token_type, TokenType::Number(0));
    assert_eq!(tokens[2].token_type, TokenType::Number(0));
    assert_eq!(tokens[2].lexeme, "99999999999999999999");
}

#[test]
fn leading_zeros_do_not_change_a_number() {
    let mut lexer = Lexer::new("007");
    assert_eq!(lexer.next_token().token_type, TokenType::Number(7));
}

#[test]
fn next_token_repeats_the_end_token() {
    let mut lexer = Lexer::new(" \t\n");
    assert_eq!(lexer.next_token().token_type, TokenType::EOF);
    assert_eq!(lexer.next_token().token_type, TokenType::EOF);
}

#[test]
fn unicode_white_space_separates_tokens() {
    let mut lexer = Lexer::new("1\u{a0}+\u{3000}2");
    let tokens = lexer.tokenize();
    assert_eq!(tokens.len(), 4);
    assert_eq!(tokens[2].position, 4);
}

#[test]
fn a_character_that_starts_no_token_is_reported() {
    let mut lexer = Lexer::new("1 + @");
    assert_eq!(lexer.try_tokenize(), Err(LexError { position: 4, character: '@' }));

    let mut lexer = Lexer::new("a ! b");
    assert_eq!(lexer.try_tokenize(), Err(LexError { position: 2, character: '!' }));

    let mut lexer = Lexer::new("a != b");
    assert_eq!(lexer.try_tokenize().unwrap().len(), 4);
}

#[test]
fn try_next_token_leaves_the_bad_character_unread() {
    let mut lexer = Lexer::new("x $");
    assert_eq!(
        lexer.try_next_token().unwrap().token_type,
        TokenType::Identifier("x".to_string())
    );
    assert_eq!(lexer.try_next_token(), Err(LexError { position: 2, character: '$' }));
    assert_eq!(lexer.try_next_token(), Err(LexError { position: 2, character: '$' }));
}

#[test]
fn a_copy_of_a_token_equals_it() {
    let mut lexer = Lexer::new("name");
    let token = lexer.next_token();
    assert_eq!(token.duplicate(), token);
}
