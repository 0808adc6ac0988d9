//! From a line of text to a value: tokenize, parse, evaluate.

use crate::ast::StatementView;
use crate::interpreter::{
    environment_after_program, program_value, Environment, Interpreter, RuntimeError,
    RuntimeErrorView,
};
use crate::lexer::{lex, Lexer, LexerError};
use crate::parser::{program, ParseError, ParseErrorView, Parser};
use crate::value::Value;
use vstd::prelude::*;

verus! {

/// Why a line has no value, by the phase that failed.
#[derive(Debug, Clone, PartialEq)]
pub enum LineError {
    /// The text could not be split into tokens.
    Lexer(LexerError),
    /// The tokens are no program.
    Parser(ParseError),
    /// The program could not be evaluated.
    Runtime(RuntimeError),
}

/// The mathematical value of a [`LineError`].
pub enum LineErrorView {
    Lexer(LexerError),
    Parser(ParseErrorView),
    Runtime(RuntimeErrorView),
}

impl View for LineError {
    type V = LineErrorView;

    open spec fn view(&self) -> LineErrorView {
        match self {
            LineError::Lexer(e) => LineErrorView::Lexer(*e),
            LineError::Parser(e) => LineErrorView::Parser(e@),
            LineError::Runtime(e) => LineErrorView::Runtime(e@),
        }
    }
}

impl LineErrorView {
    /// The error as a sentence that starts with the phase that failed.
    pub open spec fn message(self) -> Seq<char> {
        match self {
            LineErrorView::Lexer(e) => "Lexer Error: "@ + e.message(),
            LineErrorView::Parser(e) => "Parser Error: "@ + e.message(),
            LineErrorView::Runtime(e) => "Runtime Error: "@ + e.message(),
        }
    }
}

impl LineError {
    /// The error as a sentence that starts with the phase that failed.
    pub fn to_string(&self) -> (s: String)
        ensures
            s@ == self@.message(),
    {
        match self {
            LineError::Lexer(e) => {
                let mut s = String::from_str("Lexer Error: ");
                s.append(e.to_string().as_str());
                s
            },
            LineError::Parser(e) => {
                let mut s = String::from_str("Parser Error: ");
                s.append(e.to_string().as_str());
                s
            },
            LineError::Runtime(e) => {
                let mut s = String::from_str("Runtime Error: ");
                s.append(e.to_string().as_str());
                s
            },
        }
    }
}

/// The statements that a text denotes, or the error of the phase that
/// rejects it.
pub open spec fn statements_of(input: Seq<char>) -> Result<Seq<StatementView>, LineErrorView> {
    match lex(input) {
        Err(e) => Err(LineErrorView::Lexer(e)),
        Ok(tokens) => match program(tokens, 0, Seq::empty()) {
            Err(e) => Err(LineErrorView::Parser(e)),
            Ok(statements) => Ok(statements),
        },
    }
}

/// The value of a text in an environment: that of its last statement,
/// `None` where it holds no statement, or the first error of any phase.
pub open spec fn line_value(input: Seq<char>, env: Map<Seq<char>, Value>) -> Result<
    Option<Value>,
    LineErrorView,
> {
    match statements_of(input) {
        Err(e) => Err(e),
        Ok(statements) => match program_value(statements, 0, env, None) {
            Err(e) => Err(LineErrorView::Runtime(e)),
            Ok(value) => Ok(value),
        },
    }
}

/// The environment after a text was evaluated in it. A text that is
/// rejected before evaluation leaves the environment as it was.
pub open spec fn environment_after_line(input: Seq<char>, env: Map<Seq<char>, Value>) -> Map<
    Seq<char>,
    Value,
> {
    match statements_of(input) {
        Err(_) => env,
        Ok(statements) => environment_after_program(statements, 0, env),
    }
}

/// Evaluates a text in an environment: splits it into tokens, parses them,
/// and evaluates the program. No phase is tried after one that failed.
pub fn evaluate_line(input: &str, environment: &mut Environment) -> (r: Result<
    Option<Value>,
    LineError,
>)
    ensures
        match r {
            Ok(value) => line_value(input@, old(environment)@) == Ok::<
                Option<Value>,
                LineErrorView,
            >(value),
            Err(e) => line_value(input@, old(environment)@) == Err::<Option<Value>, LineErrorView>(
                e@,
            ),
        },
        final(environment)@ == environment_after_line(input@, old(environment)@),
{
    let mut lexer = Lexer::new(input);
    let tokens = match lexer.tokenize() {
        Ok(tokens) => tokens,
        Err(e) => {
            return Err(LineError::Lexer(e));
        },
    };
    let mut parser = Parser::new(tokens);
    let parsed = match parser.parse() {
        Ok(parsed) => parsed,
        Err(e) => {
            return Err(LineError::Parser(e));
        },
    };
    let interpreter = Interpreter::new();
    match interpreter.eval_program(&parsed, environment) {
        Ok(value) => Ok(value),
        Err(e) => Err(LineError::Runtime(e)),
    }
}

} // verus!
