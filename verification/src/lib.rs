//! An interactive calculator language with two numeral systems: ordinary
//! base-10 integers and floats next to sexagesimal (base-60) numerals written
//! `integer;fraction`.
//!
//! A line of text goes through the tokenizer, the recursive-descent parser and
//! the tree-walking evaluator; the numeric model says how the three kinds of
//! value combine under arithmetic.

pub mod arithmetic;
pub mod ast;
pub mod binary64;
pub mod decimal;
pub mod equality;
pub mod interpreter;
pub mod lexer;
pub mod parser;
pub mod pipeline;
pub mod text;
pub mod token;
pub mod value;
