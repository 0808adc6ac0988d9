//! The syntax tree that the parser builds and the evaluator walks.

use vstd::prelude::*;

verus! {

/// The four arithmetic operators. Plus and minus also stand before a single
/// operand.
#[derive(Debug, Clone, Copy, PartialEq, Eq)]
pub enum Operator {
    Plus,
    Minus,
    Multiply,
    Divide,
}

/// An expression.
#[derive(Debug, PartialEq)]
pub enum Expression {
    /// A numeral, kept as its text until it is evaluated.
    Number(String),
    /// A reference to a variable.
    Identifier(String),
    /// An operator between two operands.
    Binary(Operator, Box<Expression>, Box<Expression>),
    /// An operator before one operand.
    Unary(Operator, Box<Expression>),
    /// An expression in parentheses; it means what the expression inside means.
    Grouped(Box<Expression>),
}

/// The binding of a name to the value of an expression.
#[derive(Debug, PartialEq)]
pub struct Assignment {
    pub variable: String,
    pub value: Expression,
}

/// One line of a program.
#[derive(Debug, PartialEq)]
pub enum Statement {
    Expression(Expression),
    Assignment(Assignment),
}

/// A sequence of statements.
#[derive(Debug, PartialEq)]
pub struct Program {
    pub statements: Vec<Statement>,
}

/// The mathematical value of an [`Expression`].
pub enum ExpressionView {
    Number(Seq<char>),
    Identifier(Seq<char>),
    Binary(Operator, Box<ExpressionView>, Box<ExpressionView>),
    Unary(Operator, Box<ExpressionView>),
    Grouped(Box<ExpressionView>),
}

/// The mathematical value of a [`Statement`].
pub enum StatementView {
    Expression(ExpressionView),
    Assignment(Seq<char>, ExpressionView),
}

impl View for Expression {
    type V = ExpressionView;

    open spec fn view(&self) -> ExpressionView
        decreases self,
    {
        match self {
            Expression::Number(text) => ExpressionView::Number(text@),
            Expression::Identifier(name) => ExpressionView::Identifier(name@),
            Expression::Binary(op, left, right) => ExpressionView::Binary(
                *op,
                Box::new((**left).view()),
                Box::new((**right).view()),
            ),
            Expression::Unary(op, operand) => ExpressionView::Unary(
                *op,
                Box::new((**operand).view()),
            ),
            Expression::Grouped(inner) => ExpressionView::Grouped(Box::new((**inner).view())),
        }
    }
}

impl View for Statement {
    type V = StatementView;

    open spec fn view(&self) -> StatementView {
        match self {
            Statement::Expression(e) => StatementView::Expression(e@),
            Statement::Assignment(a) => StatementView::Assignment(a.variable@, a.value@),
        }
    }
}

impl View for Program {
    type V = Seq<StatementView>;

    open spec fn view(&self) -> Seq<StatementView> {
        self.statements@.map_values(|s: Statement| s@)
    }
}

} // verus!
