use abzu_interpreter::lexer::{Lexer, LexerError};
use abzu_interpreter::token::Token;

fn tokens_of(input: &str) -> Vec<Token> {
    Lexer::new(input).tokenize().unwrap()
}

fn number(text: &str) -> Token {
    Token::Number(text.to_string())
}

fn identifier(text: &str) -> Token {
    Token::Identifier(text.to_string())
}

#[test]
fn empty_input_gives_only_the_end_token() {
    assert_eq!(tokens_of(""), vec![Token::EOF]);
    assert_eq!(tokens_of(" \t\r "), vec![Token::EOF]);
}

#[test]
fn end_token_is_always_last() {
    for input in ["1", "x = 2", "\n\n", "(1 + 2) * 3", "a\nb"] {
        let tokens = tokens_of(input);
        assert_eq!(tokens.last(), Some(&Token::EOF));
        assert_eq!(tokens.iter().filter(|t| **t == Token::EOF).count(), 1);
    }
}

#[test]
fn single_character_tokens() {
    assert_eq!(
        tokens_of("+ - * / = ( )"),
        vec![
            Token::Plus,
            Token::Minus,
            Token::Asterisk,
            Token::Slash,
            Token::Assign,
            Token::LParen,
            Token::RParen,
            Token::EOF,
        ]
    );
}

#[test]
fn newline_is_a_token_and_blanks_are_not() {
    assert_eq!(
        tokens_of("a \n\tb\r\n"),
        vec![identifier("a"), Token::Newline, identifier("b"), Token::Newline, Token::EOF]
    );
}

#[test]
fn minus_between_numbers_is_an_operator() {
    assert_eq!(tokens_of("5-3"), vec![number("5"), Token::Minus, number("3"), Token::EOF]);
    assert_eq!(tokens_of("5 -3"), vec![number("5"), Token::Minus, number("3"), Token::EOF]);
    assert_eq!(tokens_of("x-1"), vec![identifier("x"), Token::Minus, number("1"), Token::EOF]);
    assert_eq!(
        tokens_of("(2)-1"),
        vec![Token::LParen, number("2"), Token::RParen, Token::Minus, number("1"), Token::EOF]
    );
}

#[test]
fn minus_before_a_digit_starts_a_numeral_after_operator_assign_or_paren() {
    assert_eq!(tokens_of("-5"), vec![number("-5"), Token::EOF]);
    assert_eq!(tokens_of("2*-5"), vec![number("2"), Token::Asterisk, number("-5"), Token::EOF]);
    assert_eq!(tokens_of("2/-5"), vec![number("2"), Token::Slash, number("-5"), Token::EOF]);
    assert_eq!(tokens_of("2--5"), vec![number("2"), Token::Minus, number("-5"), Token::EOF]);
    assert_eq!(tokens_of("x=-5;30"), vec![identifier("x"), Token::Assign, number("-5;30"), Token::EOF]);
    assert_eq!(tokens_of("(-5)"), vec![Token::LParen, number("-5"), Token::RParen, Token::EOF]);
}

#[test]
fn minus_after_a_newline_is_an_operator() {
    assert_eq!(
        tokens_of("1\n-5"),
        vec![number("1"), Token::Newline, Token::Minus, number("5"), Token::EOF]
    );
}

#[test]
fn minus_not_before_a_digit_is_an_operator() {
    assert_eq!(tokens_of("-x"), vec![Token::Minus, identifier("x"), Token::EOF]);
    assert_eq!(tokens_of("-"), vec![Token::Minus, Token::EOF]);
    assert_eq!(tokens_of("-(1)"), vec![Token::Minus, Token::LParen, number("1"), Token::RParen, Token::EOF]);
}

#[test]
fn numeral_takes_one_separator_and_the_digits_after_it() {
    assert_eq!(tokens_of("5."), vec![number("5."), Token::EOF]);
    assert_eq!(tokens_of("12;"), vec![number("12;"), Token::EOF]);
    assert_eq!(tokens_of("1.5x"), vec![number("1.5"), identifier("x"), Token::EOF]);
    assert_eq!(tokens_of("007"), vec![number("007"), Token::EOF]);
}

#[test]
fn second_separator_is_an_unexpected_character() {
    let r = Lexer::new("1;30;20").tokenize();
    assert_eq!(r, Err(LexerError::UnexpectedCharacter(';', 4)));
    let r = Lexer::new("1.2.3").tokenize();
    assert_eq!(r, Err(LexerError::UnexpectedCharacter('.', 3)));
    let r = Lexer::new("1,,2").tokenize();
    assert_eq!(r, Err(LexerError::UnexpectedCharacter(',', 2)));
}

#[test]
fn separator_outside_a_numeral_is_an_unexpected_character() {
    assert_eq!(Lexer::new(".5").tokenize(), Err(LexerError::UnexpectedCharacter('.', 0)));
    assert_eq!(Lexer::new("x;1").tokenize(), Err(LexerError::UnexpectedCharacter(';', 1)));
    assert_eq!(Lexer::new("1 + ,").tokenize(), Err(LexerError::UnexpectedCharacter(',', 4)));
}

#[test]
fn unknown_character_is_reported_with_its_offset() {
    assert_eq!(Lexer::new("1 + @").tokenize(), Err(LexerError::UnexpectedCharacter('@', 4)));
    assert_eq!(Lexer::new("#").tokenize(), Err(LexerError::UnexpectedCharacter('#', 0)));
    assert_eq!(Lexer::new("a\u{0}b").tokenize(), Err(LexerError::UnexpectedCharacter('\u{0}', 1)));
    assert_eq!(Lexer::new("a \u{c} b").tokenize(), Err(LexerError::UnexpectedCharacter('\u{c}', 2)));
}

#[test]
fn offset_counts_characters_not_bytes() {
    assert_eq!(Lexer::new("é ?").tokenize(), Err(LexerError::UnexpectedCharacter('?', 2)));
}

#[test]
fn identifiers_hold_letters_digits_and_underscores() {
    assert_eq!(tokens_of("_a1 b_2"), vec![identifier("_a1"), identifier("b_2"), Token::EOF]);
    assert_eq!(tokens_of("x1y"), vec![identifier("x1y"), Token::EOF]);
    assert_eq!(tokens_of("Zeta"), vec![identifier("Zeta"), Token::EOF]);
}

#[test]
fn identifiers_may_hold_letters_beyond_ascii() {
    assert_eq!(tokens_of("été"), vec![identifier("été"), Token::EOF]);
    assert_eq!(tokens_of("名前 = 1"), vec![identifier("名前"), Token::Assign, number("1"), Token::EOF]);
    assert_eq!(Lexer::new("€").tokenize(), Err(LexerError::UnexpectedCharacter('€', 0)));
}

#[test]
fn tokenizing_again_after_the_end_gives_only_the_end_token() {
    let mut lexer = Lexer::new("1 + 2");
    assert_eq!(lexer.tokenize().unwrap().len(), 4);
    assert_eq!(lexer.tokenize().unwrap(), vec![Token::EOF]);
}

#[test]
fn token_text() {
    assert_eq!(identifier("x").to_string(), "Identifier(x)");
    assert_eq!(number("1;30").to_string(), "Number(1;30)");
    assert_eq!(Token::Plus.to_string(), "+");
    assert_eq!(Token::Minus.to_string(), "-");
    assert_eq!(Token::Asterisk.to_string(), "*");
    assert_eq!(Token::Slash.to_string(), "/");
    assert_eq!(Token::Assign.to_string(), "=");
    assert_eq!(Token::LParen.to_string(), "(");
    assert_eq!(Token::RParen.to_string(), ")");
    assert_eq!(Token::Newline.to_string(), "newline");
    assert_eq!(Token::EOF.to_string(), "EOF");
}

#[test]
fn lexer_error_message() {
    assert_eq!(
        LexerError::UnexpectedCharacter(';', 4).to_string(),
        "Unexpected character: ';' at position 4"
    );
    assert_eq!(
        LexerError::UnexpectedCharacter('@', 120).to_string(),
        "Unexpected character: '@' at position 120"
    );
}
