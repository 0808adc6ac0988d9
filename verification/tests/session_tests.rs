use abzu_interpreter::ast::{Assignment, Expression, Operator, Program, Statement};
use abzu_interpreter::interpreter::{Environment, Interpreter, RuntimeError};
use abzu_interpreter::lexer::{Lexer, LexerError};
use abzu_interpreter::parser::{Expected, ParseError, Parser};
use abzu_interpreter::pipeline::{evaluate_line, LineError};
use abzu_interpreter::token::Token;
use abzu_interpreter::value::{SexagesimalNum, Value};

fn float(x: f64) -> Value {
    Value::Float(x.to_bits())
}

fn sex(integer: i64, fraction: i64) -> Value {
    Value::Sexagesimal(SexagesimalNum::new(integer, fraction).unwrap())
}

fn eval(input: &str) -> Result<Option<Value>, LineError> {
    evaluate_line(input, &mut Environment::new())
}

fn value(input: &str) -> Value {
    eval(input).unwrap().unwrap()
}

#[test]
fn mixed_formats_end_to_end() {
    let input = "x = 10 + 2;30 - 5.5";
    let tokens = Lexer::new(input).tokenize().unwrap();
    assert_eq!(
        tokens,
        vec![
            Token::Identifier("x".to_string()),
            Token::Assign,
            Token::Number("10".to_string()),
            Token::Plus,
            Token::Number("2;30".to_string()),
            Token::Minus,
            Token::Number("5.5".to_string()),
            Token::EOF,
        ]
    );
    let program = Parser::new(tokens).parse().unwrap();
    let number = |text: &str| Box::new(Expression::Number(text.to_string()));
    assert_eq!(
        program.statements,
        vec![Statement::Assignment(Assignment {
            variable: "x".to_string(),
            value: Expression::Binary(
                Operator::Minus,
                Box::new(Expression::Binary(Operator::Plus, number("10"), number("2;30"))),
                number("5.5"),
            ),
        })]
    );
    let mut env = Environment::new();
    let interpreter = Interpreter::new();
    let sum = Expression::Binary(Operator::Plus, number("10"), number("2;30"));
    assert_eq!(interpreter.eval_expression(&sum, &mut env), Ok(sex(12, 30)));
    assert_eq!(interpreter.eval_program(&program, &mut env), Ok(Some(float(7.0))));
    assert_eq!(env.get("x"), Some(float(7.0)));
}

#[test]
fn the_line_entry_point_gives_the_same() {
    let mut env = Environment::new();
    assert_eq!(evaluate_line("x = 10 + 2;30 - 5.5", &mut env), Ok(Some(float(7.0))));
    assert_eq!(env.get("x"), Some(float(7.0)));
}

#[test]
fn assignment_persists_across_lines() {
    let mut env = Environment::new();
    assert_eq!(evaluate_line("x = 42", &mut env), Ok(Some(Value::Integer(42))));
    assert_eq!(evaluate_line("x", &mut env), Ok(Some(Value::Integer(42))));
    assert_eq!(evaluate_line("x + 1", &mut env), Ok(Some(Value::Integer(43))));
    assert_eq!(evaluate_line("y = x * 2", &mut env), Ok(Some(Value::Integer(84))));
    assert_eq!(evaluate_line("x = x + 1", &mut env), Ok(Some(Value::Integer(43))));
    assert_eq!(env.get("x"), Some(Value::Integer(43)));
    assert_eq!(env.get("y"), Some(Value::Integer(84)));
}

#[test]
fn assignment_persists_across_statements_of_one_text() {
    let mut env = Environment::new();
    assert_eq!(evaluate_line("x = 42\nx + 1\n", &mut env), Ok(Some(Value::Integer(43))));
    assert_eq!(env.get("x"), Some(Value::Integer(42)));
}

#[test]
fn unassigned_name_is_undefined() {
    let mut env = Environment::new();
    assert_eq!(
        evaluate_line("z", &mut env),
        Err(LineError::Runtime(RuntimeError::UndefinedVariable("z".to_string())))
    );
    assert_eq!(
        evaluate_line("x = 1 + z", &mut env),
        Err(LineError::Runtime(RuntimeError::UndefinedVariable("z".to_string())))
    );
    assert_eq!(env.get("x"), None);
}

#[test]
fn names_differ_by_every_character() {
    let mut env = Environment::new();
    env.set("ab".to_string(), Value::Integer(1));
    env.set("a".to_string(), Value::Integer(2));
    env.set("abc".to_string(), Value::Integer(3));
    assert_eq!(env.get("ab"), Some(Value::Integer(1)));
    assert_eq!(env.get("a"), Some(Value::Integer(2)));
    assert_eq!(env.get("abc"), Some(Value::Integer(3)));
    assert_eq!(env.get("b"), None);
    assert_eq!(env.get(""), None);
    env.set("ab".to_string(), Value::Integer(4));
    assert_eq!(env.get("ab"), Some(Value::Integer(4)));
    assert_eq!(env.get("a"), Some(Value::Integer(2)));
    assert_eq!(env.get("abc"), Some(Value::Integer(3)));
}

#[test]
fn empty_text_has_no_value() {
    assert_eq!(eval(""), Ok(None));
    assert_eq!(eval("\n\n"), Ok(None));
    assert_eq!(
        Interpreter::new().eval_program(&Program { statements: vec![] }, &mut Environment::new()),
        Ok(None)
    );
}

#[test]
fn each_phase_reports_its_own_error() {
    assert_eq!(eval("1 + @"), Err(LineError::Lexer(LexerError::UnexpectedCharacter('@', 4))));
    assert_eq!(
        eval("1 +"),
        Err(LineError::Parser(ParseError::UnexpectedEndOfInput(Expected::Operand)))
    );
    assert_eq!(eval("1 / 0"), Err(LineError::Runtime(RuntimeError::DivisionByZero)));
}

#[test]
fn a_rejected_text_leaves_the_environment_alone() {
    let mut env = Environment::new();
    env.set("x".to_string(), Value::Integer(1));
    assert!(evaluate_line("x = 2\nx = @", &mut env).is_err());
    assert_eq!(env.get("x"), Some(Value::Integer(1)));
    assert!(evaluate_line("x = 2\nx = (", &mut env).is_err());
    assert_eq!(env.get("x"), Some(Value::Integer(1)));
}

#[test]
fn a_failing_statement_keeps_what_was_assigned_before_it() {
    let mut env = Environment::new();
    assert_eq!(
        evaluate_line("x = 2\ny = 1 / 0\nz = 3", &mut env),
        Err(LineError::Runtime(RuntimeError::DivisionByZero))
    );
    assert_eq!(env.get("x"), Some(Value::Integer(2)));
    assert_eq!(env.get("y"), None);
    assert_eq!(env.get("z"), None);
}

#[test]
fn numeral_errors_become_type_errors() {
    assert_eq!(
        eval("1;60"),
        Err(LineError::Runtime(RuntimeError::TypeError(
            "Invalid number format: 'Fractional part must be between 0 and 59, got 60'"
                .to_string()
        )))
    );
    assert_eq!(
        eval("99999999999999999999"),
        Err(LineError::Runtime(RuntimeError::TypeError(
            "Invalid number format: '99999999999999999999'".to_string()
        )))
    );
    let mut env = Environment::new();
    let i = Interpreter::new();
    assert_eq!(
        i.eval_expression(&Expression::Number("".to_string()), &mut env),
        Err(RuntimeError::TypeError("Empty number string".to_string()))
    );
    assert_eq!(
        i.eval_expression(&Expression::Number("1.2.3".to_string()), &mut env),
        Err(RuntimeError::TypeError("Multiple decimal points in number".to_string()))
    );
    assert_eq!(
        i.eval_expression(&Expression::Number("1;".to_string()), &mut env),
        Err(RuntimeError::TypeError("Invalid number format: ''".to_string()))
    );
}

#[test]
fn operands_are_evaluated_from_left_to_right() {
    assert_eq!(
        eval("a + 1 / 0"),
        Err(LineError::Runtime(RuntimeError::UndefinedVariable("a".to_string())))
    );
    assert_eq!(eval("1 / 0 + a"), Err(LineError::Runtime(RuntimeError::DivisionByZero)));
}

#[test]
fn precedence_and_grouping_in_values() {
    assert_eq!(value("1 + 2 * 3"), Value::Integer(7));
    assert_eq!(value("(1 + 2) * 3"), Value::Integer(9));
    assert_eq!(value("10 - 4 - 3"), Value::Integer(3));
    assert_eq!(value("24 / 4 / 2"), Value::Integer(3));
    assert_eq!(value("2 * -3"), Value::Integer(-6));
    assert_eq!(value("-(2 + 3)"), Value::Integer(-5));
    assert_eq!(value("+7"), Value::Integer(7));
    assert_eq!(value("--7"), Value::Integer(7));
    assert_eq!(value("5-3"), Value::Integer(2));
}

#[test]
fn division_in_values() {
    assert_eq!(value("6 / 3"), Value::Integer(2));
    assert_eq!(value("5 / 2"), float(2.5));
    assert_eq!(eval("5 / 0"), Err(LineError::Runtime(RuntimeError::DivisionByZero)));
    assert_eq!(eval("1.0 / 0.0"), Err(LineError::Runtime(RuntimeError::DivisionByZero)));
    assert_eq!(eval("1;30 / 0;0"), Err(LineError::Runtime(RuntimeError::DivisionByZero)));
    assert_eq!(eval("5 / (1;30 - 1;30)"), Err(LineError::Runtime(RuntimeError::DivisionByZero)));
    assert_eq!(eval("2.5 / (3 - 3)"), Err(LineError::Runtime(RuntimeError::DivisionByZero)));
}

#[test]
fn sexagesimal_in_values() {
    assert_eq!(value("1;30 + 0;30"), sex(2, 0));
    assert_eq!(value("1;30 * 2"), sex(3, 0));
    assert_eq!(value("1;30 * 1;30"), float(2.25));
    assert_eq!(value("-1;30"), sex(-1, 30));
    assert_eq!(value("- 1;30"), sex(-2, 30));
    assert_eq!(value("-(-(1;30))"), sex(1, 30));
    assert_eq!(value("1,30 + 1"), float(2.5));
}

#[test]
fn statement_values() {
    let mut env = Environment::new();
    let i = Interpreter::new();
    let s = Statement::Expression(Expression::Number("1;30".to_string()));
    assert_eq!(i.eval_statement(&s, &mut env), Ok(sex(1, 30)));
    let s = Statement::Assignment(Assignment {
        variable: "v".to_string(),
        value: Expression::Identifier("w".to_string()),
    });
    assert_eq!(
        i.eval_statement(&s, &mut env),
        Err(RuntimeError::UndefinedVariable("w".to_string()))
    );
    assert_eq!(env.get("v"), None);
}

#[test]
fn error_messages() {
    assert_eq!(
        RuntimeError::UndefinedVariable("x".to_string()).to_string(),
        "Undefined variable: 'x'"
    );
    assert_eq!(RuntimeError::TypeError("bad".to_string()).to_string(), "Type error: bad");
    assert_eq!(RuntimeError::DivisionByZero.to_string(), "Division by zero");
    assert_eq!(
        RuntimeError::InvalidOperator("what".to_string()).to_string(),
        "Invalid operator for types: what"
    );
    assert_eq!(
        LineError::Lexer(LexerError::UnexpectedCharacter('@', 4)).to_string(),
        "Lexer Error: Unexpected character: '@' at position 4"
    );
    assert_eq!(
        LineError::Parser(ParseError::UnexpectedEndOfInput(Expected::ClosingParenthesis))
            .to_string(),
        "Parser Error: Unexpected end of input, expected ')'"
    );
    assert_eq!(
        LineError::Runtime(RuntimeError::DivisionByZero).to_string(),
        "Runtime Error: Division by zero"
    );
}
