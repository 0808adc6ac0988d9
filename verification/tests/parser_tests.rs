use abzu_interpreter::ast::{Assignment, Expression, Operator, Program, Statement};
use abzu_interpreter::lexer::Lexer;
use abzu_interpreter::parser::{Expected, ParseError, Parser};
use abzu_interpreter::token::Token;

fn parse(input: &str) -> Result<Program, ParseError> {
    let tokens = Lexer::new(input).tokenize().unwrap();
    Parser::new(tokens).parse()
}

fn num(text: &str) -> Expression {
    Expression::Number(text.to_string())
}

fn var(name: &str) -> Expression {
    Expression::Identifier(name.to_string())
}

fn binary(op: Operator, left: Expression, right: Expression) -> Expression {
    Expression::Binary(op, Box::new(left), Box::new(right))
}

fn single(input: &str) -> Expression {
    let mut program = parse(input).unwrap();
    assert_eq!(program.statements.len(), 1);
    match program.statements.remove(0) {
        Statement::Expression(e) => e,
        Statement::Assignment(_) => panic!("expected an expression statement"),
    }
}

#[test]
fn empty_and_blank_input_hold_no_statement() {
    assert_eq!(parse("").unwrap().statements.len(), 0);
    assert_eq!(parse("\n\n  \n").unwrap().statements.len(), 0);
}

#[test]
fn operands() {
    assert_eq!(single("42"), num("42"));
    assert_eq!(single("1;30"), num("1;30"));
    assert_eq!(single("x"), var("x"));
    assert_eq!(single("(x)"), Expression::Grouped(Box::new(var("x"))));
}

#[test]
fn multiplication_binds_tighter_than_addition() {
    assert_eq!(
        single("1 + 2 * 3"),
        binary(Operator::Plus, num("1"), binary(Operator::Multiply, num("2"), num("3")))
    );
    assert_eq!(
        single("1 * 2 + 3"),
        binary(Operator::Plus, binary(Operator::Multiply, num("1"), num("2")), num("3"))
    );
    assert_eq!(
        single("8 - 6 / 2"),
        binary(Operator::Minus, num("8"), binary(Operator::Divide, num("6"), num("2")))
    );
}

#[test]
fn operators_group_to_the_left() {
    assert_eq!(
        single("1 - 2 - 3"),
        binary(Operator::Minus, binary(Operator::Minus, num("1"), num("2")), num("3"))
    );
    assert_eq!(
        single("8 / 4 / 2"),
        binary(Operator::Divide, binary(Operator::Divide, num("8"), num("4")), num("2"))
    );
    assert_eq!(
        single("1 + 2 - 3 + 4"),
        binary(
            Operator::Plus,
            binary(Operator::Minus, binary(Operator::Plus, num("1"), num("2")), num("3")),
            num("4")
        )
    );
}

#[test]
fn parentheses_group() {
    assert_eq!(
        single("(1 + 2) * 3"),
        binary(
            Operator::Multiply,
            Expression::Grouped(Box::new(binary(Operator::Plus, num("1"), num("2")))),
            num("3")
        )
    );
    assert_eq!(
        single("((x))"),
        Expression::Grouped(Box::new(Expression::Grouped(Box::new(var("x")))))
    );
}

#[test]
fn prefix_operators_bind_tighter_than_multiplication() {
    assert_eq!(
        single("-x * y"),
        binary(
            Operator::Multiply,
            Expression::Unary(Operator::Minus, Box::new(var("x"))),
            var("y")
        )
    );
    assert_eq!(
        single("2 * -x"),
        binary(
            Operator::Multiply,
            num("2"),
            Expression::Unary(Operator::Minus, Box::new(var("x")))
        )
    );
    assert_eq!(
        single("+-x"),
        Expression::Unary(
            Operator::Plus,
            Box::new(Expression::Unary(Operator::Minus, Box::new(var("x"))))
        )
    );
    assert_eq!(
        single("-(1)"),
        Expression::Unary(Operator::Minus, Box::new(Expression::Grouped(Box::new(num("1")))))
    );
}

#[test]
fn assignment_is_a_name_followed_by_the_assign_token() {
    let program = parse("x = 1 + 2").unwrap();
    assert_eq!(
        program.statements,
        vec![Statement::Assignment(Assignment {
            variable: "x".to_string(),
            value: binary(Operator::Plus, num("1"), num("2")),
        })]
    );
}

#[test]
fn a_name_alone_is_an_expression() {
    assert_eq!(single("x + 1"), binary(Operator::Plus, var("x"), num("1")));
}

#[test]
fn newlines_separate_statements() {
    let program = parse("x = 1\n\n\nx + 2\n").unwrap();
    assert_eq!(
        program.statements,
        vec![
            Statement::Assignment(Assignment { variable: "x".to_string(), value: num("1") }),
            Statement::Expression(binary(Operator::Plus, var("x"), num("2"))),
        ]
    );
}

#[test]
fn incomplete_expression_at_the_end_names_what_was_expected() {
    assert_eq!(parse("1 +"), Err(ParseError::UnexpectedEndOfInput(Expected::Operand)));
    assert_eq!(parse("x ="), Err(ParseError::UnexpectedEndOfInput(Expected::Operand)));
    assert_eq!(parse("2 * ("), Err(ParseError::UnexpectedEndOfInput(Expected::Operand)));
    assert_eq!(parse("-"), Err(ParseError::UnexpectedEndOfInput(Expected::Operand)));
}

#[test]
fn unclosed_parenthesis() {
    assert_eq!(
        parse("(1 + 2"),
        Err(ParseError::UnexpectedEndOfInput(Expected::ClosingParenthesis))
    );
    assert_eq!(
        parse("(1 + 2\n"),
        Err(ParseError::UnexpectedToken(Token::Newline, Expected::ClosingParenthesis))
    );
    assert_eq!(
        parse("(1 2)"),
        Err(ParseError::UnexpectedToken(
            Token::Number("2".to_string()),
            Expected::ClosingParenthesis
        ))
    );
}

#[test]
fn stray_closing_parenthesis() {
    assert_eq!(
        parse("1 + 2)"),
        Err(ParseError::UnexpectedToken(Token::RParen, Expected::EndOfStatement))
    );
    assert_eq!(parse(")"), Err(ParseError::UnexpectedToken(Token::RParen, Expected::Operand)));
    assert_eq!(parse("()"), Err(ParseError::UnexpectedToken(Token::RParen, Expected::Operand)));
}

#[test]
fn unexpected_tokens() {
    assert_eq!(parse("* 2"), Err(ParseError::UnexpectedToken(Token::Asterisk, Expected::Operand)));
    assert_eq!(parse("1 + * 2"), Err(ParseError::UnexpectedToken(Token::Asterisk, Expected::Operand)));
    assert_eq!(parse("= 2"), Err(ParseError::UnexpectedToken(Token::Assign, Expected::Operand)));
    assert_eq!(
        parse("1 2"),
        Err(ParseError::UnexpectedToken(Token::Number("2".to_string()), Expected::EndOfStatement))
    );
    assert_eq!(
        parse("1 +\n2"),
        Err(ParseError::UnexpectedToken(Token::Newline, Expected::Operand))
    );
}

#[test]
fn assignment_stands_only_at_the_head_of_a_statement() {
    assert_eq!(
        parse("x = y = 2"),
        Err(ParseError::UnexpectedToken(Token::Assign, Expected::EndOfStatement))
    );
    assert_eq!(
        parse("1 = 2"),
        Err(ParseError::UnexpectedToken(Token::Assign, Expected::EndOfStatement))
    );
    assert_eq!(
        parse("(x = 2)"),
        Err(ParseError::UnexpectedToken(Token::Assign, Expected::ClosingParenthesis))
    );
}

#[test]
fn the_first_error_ends_parsing() {
    assert_eq!(
        parse("x = 1\n2 +\ny = )"),
        Err(ParseError::UnexpectedToken(Token::Newline, Expected::Operand))
    );
}

#[test]
fn tokens_without_an_end_token_are_taken_to_end_there() {
    let mut parser = Parser::new(vec![Token::Number("1".to_string()), Token::Plus]);
    assert_eq!(parser.parse(), Err(ParseError::UnexpectedEndOfInput(Expected::Operand)));
    let mut parser = Parser::new(vec![Token::Number("1".to_string())]);
    assert_eq!(parser.parse().unwrap().statements, vec![Statement::Expression(num("1"))]);
}

#[test]
fn what_follows_the_end_token_is_not_read() {
    let mut parser = Parser::new(vec![Token::Number("1".to_string()), Token::EOF, Token::RParen]);
    assert_eq!(parser.parse().unwrap().statements, vec![Statement::Expression(num("1"))]);
}

#[test]
fn parse_error_messages() {
    assert_eq!(
        ParseError::UnexpectedEndOfInput(Expected::Operand).to_string(),
        "Unexpected end of input, expected a number, an identifier or '('"
    );
    assert_eq!(
        ParseError::UnexpectedToken(Token::Number("2".to_string()), Expected::ClosingParenthesis)
            .to_string(),
        "Unexpected token Number(2), expected ')'"
    );
    assert_eq!(
        ParseError::UnexpectedToken(Token::RParen, Expected::EndOfStatement).to_string(),
        "Unexpected token ), expected the end of the statement"
    );
}
