//! The parser: recursive descent over the tokens of a line.
//!
//! Assignment binds loosest and stands only at the head of a statement, as
//! `name = expression`. Then come `+` and `-`, then `*` and `/`, all four
//! grouping to the left; then the prefix operators `+` and `-`; then
//! numerals, names and expressions in parentheses. Newlines separate
//! statements.

use crate::ast::{
    Assignment, Expression, ExpressionView, Operator, Program, Statement, StatementView,
};
use crate::token::{token_views, Token, TokenView};
use vstd::prelude::*;

verus! {

/// The class of token that the parser was looking for.
#[derive(Debug, Clone, Copy, PartialEq, Eq)]
pub enum Expected {
    /// A numeral, a name, or `(`: what an operand starts with.
    Operand,
    /// `)`, to close a parenthesis that is open.
    ClosingParenthesis,
    /// A newline or the end of the input, after a complete statement.
    EndOfStatement,
}

impl Expected {
    /// The class of token in words.
    pub open spec fn text(self) -> Seq<char> {
        match self {
            Expected::Operand => "a number, an identifier or '('"@,
            Expected::ClosingParenthesis => "')'"@,
            Expected::EndOfStatement => "the end of the statement"@,
        }
    }

    /// The class of token in words.
    pub fn to_string(&self) -> (s: String)
        ensures
            s@ == self.text(),
    {
        match self {
            Expected::Operand => String::from_str("a number, an identifier or '('"),
            Expected::ClosingParenthesis => String::from_str("')'"),
            Expected::EndOfStatement => String::from_str("the end of the statement"),
        }
    }
}

/// Why the tokens are no program.
#[derive(Debug, Clone, PartialEq)]
pub enum ParseError {
    /// A token stands where another class of token was expected.
    UnexpectedToken(Token, Expected),
    /// The input ends where a token was expected: the expression so far is
    /// not complete.
    UnexpectedEndOfInput(Expected),
}

/// The mathematical value of a [`ParseError`].
pub enum ParseErrorView {
    UnexpectedToken(TokenView, Expected),
    UnexpectedEndOfInput(Expected),
}

impl View for ParseError {
    type V = ParseErrorView;

    open spec fn view(&self) -> ParseErrorView {
        match self {
            ParseError::UnexpectedToken(token, expected) => ParseErrorView::UnexpectedToken(
                token@,
                *expected,
            ),
            ParseError::UnexpectedEndOfInput(expected) => ParseErrorView::UnexpectedEndOfInput(
                *expected,
            ),
        }
    }
}

impl ParseErrorView {
    /// The error as a sentence.
    pub open spec fn message(self) -> Seq<char> {
        match self {
            ParseErrorView::UnexpectedToken(found, expected) => "Unexpected token "@
                + found.text() + ", expected "@ + expected.text(),
            ParseErrorView::UnexpectedEndOfInput(expected) => "Unexpected end of input, expected "@
                + expected.text(),
        }
    }
}

impl ParseError {
    /// The error as a sentence.
    pub fn to_string(&self) -> (s: String)
        ensures
            s@ == self@.message(),
    {
        match self {
            ParseError::UnexpectedToken(found, expected) => {
                let mut s = String::from_str("Unexpected token ");
                s.append(found.to_string().as_str());
                s.append(", expected ");
                s.append(expected.to_string().as_str());
                s
            },
            ParseError::UnexpectedEndOfInput(expected) => {
                let mut s = String::from_str("Unexpected end of input, expected ");
                s.append(expected.to_string().as_str());
                s
            },
        }
    }
}

/// What parsing an expression gives: the expression and the position after
/// it, or an error.
pub type Parsed = Result<(ExpressionView, int), ParseErrorView>;

/// The token at `pos`; the end-of-input token past the last token.
pub open spec fn token_at(tokens: Seq<TokenView>, pos: int) -> TokenView {
    if 0 <= pos < tokens.len() {
        tokens[pos]
    } else {
        TokenView::EOF
    }
}

/// The error for a token that stands where `expected` should.
pub open spec fn unexpected(found: TokenView, expected: Expected) -> ParseErrorView {
    if found is EOF {
        ParseErrorView::UnexpectedEndOfInput(expected)
    } else {
        ParseErrorView::UnexpectedToken(found, expected)
    }
}

/// An operand: a numeral, a name, or an expression in parentheses.
pub open spec fn primary(tokens: Seq<TokenView>, pos: int) -> Parsed
    decreases tokens.len() - pos, 0int,
{
    match token_at(tokens, pos) {
        TokenView::Number(text) => Ok((ExpressionView::Number(text), pos + 1)),
        TokenView::Identifier(name) => Ok((ExpressionView::Identifier(name), pos + 1)),
        TokenView::LParen => match expression(tokens, pos + 1) {
            Ok((inner, next)) => if token_at(tokens, next) is RParen {
                Ok((ExpressionView::Grouped(Box::new(inner)), next + 1))
            } else {
                Err(unexpected(token_at(tokens, next), Expected::ClosingParenthesis))
            },
            Err(error) => Err(error),
        },
        found => Err(unexpected(found, Expected::Operand)),
    }
}

/// An operand with any number of prefix operators `+` and `-` before it.
pub open spec fn unary(tokens: Seq<TokenView>, pos: int) -> Parsed
    decreases tokens.len() - pos, 1int,
{
    match token_at(tokens, pos) {
        TokenView::Plus => match unary(tokens, pos + 1) {
            Ok((operand, next)) => Ok(
                (ExpressionView::Unary(Operator::Plus, Box::new(operand)), next),
            ),
            Err(error) => Err(error),
        },
        TokenView::Minus => match unary(tokens, pos + 1) {
            Ok((operand, next)) => Ok(
                (ExpressionView::Unary(Operator::Minus, Box::new(operand)), next),
            ),
            Err(error) => Err(error),
        },
        _ => primary(tokens, pos),
    }
}

/// What follows the left operand `left` of a product or quotient: each `*`
/// or `/` takes the next operand and groups with what stands to its left.
/// An operand always holds a token (`lemma_unary_advances`), so the chain
/// always goes on behind it; the test of the positions is there for the
/// recursion to end.
pub open spec fn factors(tokens: Seq<TokenView>, pos: int, left: ExpressionView) -> Parsed
    decreases tokens.len() - pos, 2int,
{
    let op = match token_at(tokens, pos) {
        TokenView::Asterisk => Some(Operator::Multiply),
        TokenView::Slash => Some(Operator::Divide),
        _ => None,
    };
    match op {
        Some(op) => match unary(tokens, pos + 1) {
            Ok((right, next)) => {
                let both = ExpressionView::Binary(op, Box::new(left), Box::new(right));
                if pos < next <= tokens.len() {
                    factors(tokens, next, both)
                } else {
                    Ok((both, next))
                }
            },
            Err(error) => Err(error),
        },
        None => Ok((left, pos)),
    }
}

/// A product or quotient of operands.
pub open spec fn term(tokens: Seq<TokenView>, pos: int) -> Parsed
    decreases tokens.len() - pos, 3int,
{
    match unary(tokens, pos) {
        Ok((left, next)) => if pos <= next <= tokens.len() {
            factors(tokens, next, left)
        } else {
            Ok((left, next))
        },
        Err(error) => Err(error),
    }
}

/// What follows the left operand `left` of a sum or difference: each `+` or
/// `-` takes the next term and groups with what stands to its left. A term
/// always holds a token (`lemma_term_advances`), so the chain always goes on
/// behind it.
pub open spec fn terms(tokens: Seq<TokenView>, pos: int, left: ExpressionView) -> Parsed
    decreases tokens.len() - pos, 4int,
{
    let op = match token_at(tokens, pos) {
        TokenView::Plus => Some(Operator::Plus),
        TokenView::Minus => Some(Operator::Minus),
        _ => None,
    };
    match op {
        Some(op) => match term(tokens, pos + 1) {
            Ok((right, next)) => {
                let both = ExpressionView::Binary(op, Box::new(left), Box::new(right));
                if pos < next <= tokens.len() {
                    terms(tokens, next, both)
                } else {
                    Ok((both, next))
                }
            },
            Err(error) => Err(error),
        },
        None => Ok((left, pos)),
    }
}

/// An expression: a sum or difference of terms.
pub open spec fn expression(tokens: Seq<TokenView>, pos: int) -> Parsed
    decreases tokens.len() - pos, 5int,
{
    match term(tokens, pos) {
        Ok((left, next)) => if pos <= next <= tokens.len() {
            terms(tokens, next, left)
        } else {
            Ok((left, next))
        },
        Err(error) => Err(error),
    }
}

/// A statement: an assignment where a name is followed by `=`, else an
/// expression.
pub open spec fn statement(tokens: Seq<TokenView>, pos: int) -> Result<
    (StatementView, int),
    ParseErrorView,
> {
    match token_at(tokens, pos) {
        TokenView::Identifier(name) if token_at(tokens, pos + 1) is Assign => match expression(
            tokens,
            pos + 2,
        ) {
            Ok((value, next)) => Ok((StatementView::Assignment(name, value), next)),
            Err(error) => Err(error),
        },
        _ => match expression(tokens, pos) {
            Ok((value, next)) => Ok((StatementView::Expression(value), next)),
            Err(error) => Err(error),
        },
    }
}

/// The statements from `pos` on, after those already parsed. Newlines
/// between statements are passed over; each statement ends at a newline or
/// at the end of the input; the end of the input ends the program.
pub open spec fn program(tokens: Seq<TokenView>, pos: int, parsed: Seq<StatementView>) -> Result<
    Seq<StatementView>,
    ParseErrorView,
>
    decreases tokens.len() - pos,
{
    match token_at(tokens, pos) {
        TokenView::EOF => Ok(parsed),
        TokenView::Newline => program(tokens, pos + 1, parsed),
        _ => match statement(tokens, pos) {
            Ok((next_statement, next)) => {
                let follower = token_at(tokens, next);
                if !(follower is Newline || follower is EOF) {
                    Err(ParseErrorView::UnexpectedToken(follower, Expected::EndOfStatement))
                } else if pos < next <= tokens.len() {
                    program(tokens, next, parsed.push(next_statement))
                } else {
                    Ok(parsed.push(next_statement))
                }
            },
            Err(error) => Err(error),
        },
    }
}

/// An operand holds at least one token and ends within the tokens.
pub proof fn lemma_primary_advances(tokens: Seq<TokenView>, pos: int)
    ensures
        primary(tokens, pos) matches Ok((_, next)) ==> pos < next <= tokens.len(),
    decreases tokens.len() - pos, 0int,
{
    if token_at(tokens, pos) is LParen {
        lemma_expression_advances(tokens, pos + 1);
    }
}

/// An operand with its prefix operators holds at least one token and ends
/// within the tokens.
pub proof fn lemma_unary_advances(tokens: Seq<TokenView>, pos: int)
    ensures
        unary(tokens, pos) matches Ok((_, next)) ==> pos < next <= tokens.len(),
    decreases tokens.len() - pos, 1int,
{
    if token_at(tokens, pos) is Plus || token_at(tokens, pos) is Minus {
        lemma_unary_advances(tokens, pos + 1);
    } else {
        lemma_primary_advances(tokens, pos);
    }
}

/// What follows a left operand ends at or after its start, within the tokens.
pub proof fn lemma_factors_advances(tokens: Seq<TokenView>, pos: int, left: ExpressionView)
    requires
        pos <= tokens.len(),
    ensures
        factors(tokens, pos, left) matches Ok((_, next)) ==> pos <= next <= tokens.len(),
    decreases tokens.len() - pos, 2int,
{
    if token_at(tokens, pos) is Asterisk || token_at(tokens, pos) is Slash {
        lemma_unary_advances(tokens, pos + 1);
        match unary(tokens, pos + 1) {
            Ok((right, next)) => {
                let op = if token_at(tokens, pos) is Asterisk {
                    Operator::Multiply
                } else {
                    Operator::Divide
                };
                lemma_factors_advances(
                    tokens,
                    next,
                    ExpressionView::Binary(op, Box::new(left), Box::new(right)),
                );
            },
            Err(_) => {},
        }
    }
}

/// A term holds at least one token and ends within the tokens.
pub proof fn lemma_term_advances(tokens: Seq<TokenView>, pos: int)
    ensures
        term(tokens, pos) matches Ok((_, next)) ==> pos < next <= tokens.len(),
    decreases tokens.len() - pos, 3int,
{
    lemma_unary_advances(tokens, pos);
    match unary(tokens, pos) {
        Ok((left, next)) => {
            lemma_factors_advances(tokens, next, left);
        },
        Err(_) => {},
    }
}

/// What follows a left term ends at or after its start, within the tokens.
pub proof fn lemma_terms_advances(tokens: Seq<TokenView>, pos: int, left: ExpressionView)
    requires
        pos <= tokens.len(),
    ensures
        terms(tokens, pos, left) matches Ok((_, next)) ==> pos <= next <= tokens.len(),
    decreases tokens.len() - pos, 4int,
{
    if token_at(tokens, pos) is Plus || token_at(tokens, pos) is Minus {
        lemma_term_advances(tokens, pos + 1);
        match term(tokens, pos + 1) {
            Ok((right, next)) => {
                let op = if token_at(tokens, pos) is Plus {
                    Operator::Plus
                } else {
                    Operator::Minus
                };
                lemma_terms_advances(
                    tokens,
                    next,
                    ExpressionView::Binary(op, Box::new(left), Box::new(right)),
                );
            },
            Err(_) => {},
        }
    }
}

/// An expression holds at least one token and ends within the tokens.
pub proof fn lemma_expression_advances(tokens: Seq<TokenView>, pos: int)
    ensures
        expression(tokens, pos) matches Ok((_, next)) ==> pos < next <= tokens.len(),
    decreases tokens.len() - pos, 5int,
{
    lemma_term_advances(tokens, pos);
    match term(tokens, pos) {
        Ok((left, next)) => {
            lemma_terms_advances(tokens, next, left);
        },
        Err(_) => {},
    }
}

/// A statement holds at least one token and ends within the tokens.
pub proof fn lemma_statement_advances(tokens: Seq<TokenView>, pos: int)
    ensures
        statement(tokens, pos) matches Ok((_, next)) ==> pos < next <= tokens.len(),
{
    lemma_expression_advances(tokens, pos);
    lemma_expression_advances(tokens, pos + 2);
}

/// The token that an operator is written with.
pub open spec fn operator_token(op: Operator) -> TokenView {
    match op {
        Operator::Plus => TokenView::Plus,
        Operator::Minus => TokenView::Minus,
        Operator::Multiply => TokenView::Asterisk,
        Operator::Divide => TokenView::Slash,
    }
}

/// The tokens that an expression is written with, in order.
pub open spec fn expression_tokens(e: ExpressionView) -> Seq<TokenView>
    decreases e,
{
    match e {
        ExpressionView::Number(text) => seq![TokenView::Number(text)],
        ExpressionView::Identifier(name) => seq![TokenView::Identifier(name)],
        ExpressionView::Binary(op, left, right) => expression_tokens(*left).push(
            operator_token(op),
        ) + expression_tokens(*right),
        ExpressionView::Unary(op, operand) => seq![operator_token(op)] + expression_tokens(
            *operand,
        ),
        ExpressionView::Grouped(inner) => (seq![TokenView::LParen] + expression_tokens(
            *inner,
        )).push(TokenView::RParen),
    }
}

/// The tokens that a statement is written with, in order.
pub open spec fn statement_tokens(s: StatementView) -> Seq<TokenView> {
    match s {
        StatementView::Expression(e) => expression_tokens(e),
        StatementView::Assignment(name, e) => seq![
            TokenView::Identifier(name),
            TokenView::Assign,
        ] + expression_tokens(e),
    }
}

/// An operand is written with the tokens that it was parsed from.
pub proof fn lemma_primary_tokens(tokens: Seq<TokenView>, pos: int)
    requires
        0 <= pos,
    ensures
        primary(tokens, pos) matches Ok((e, next)) ==> pos < next <= tokens.len()
            && tokens.subrange(pos, next) == expression_tokens(e),
    decreases tokens.len() - pos, 0int,
{
    lemma_primary_advances(tokens, pos);
    match primary(tokens, pos) {
        Ok((e, next)) => {
            if token_at(tokens, pos) is LParen {
                lemma_expression_tokens(tokens, pos + 1);
                let inner = expression(tokens, pos + 1)->Ok_0.0;
                let close = expression(tokens, pos + 1)->Ok_0.1;
                assert(tokens.subrange(pos, next) =~= (seq![TokenView::LParen] + tokens.subrange(
                    pos + 1,
                    close,
                )).push(TokenView::RParen));
            } else {
                assert(tokens.subrange(pos, next) =~= seq![tokens[pos]]);
            }
        },
        Err(_) => {},
    }
}

/// An operand with its prefix operators is written with the tokens that it
/// was parsed from.
pub proof fn lemma_unary_tokens(tokens: Seq<TokenView>, pos: int)
    requires
        0 <= pos,
    ensures
        unary(tokens, pos) matches Ok((e, next)) ==> pos < next <= tokens.len()
            && tokens.subrange(pos, next) == expression_tokens(e),
    decreases tokens.len() - pos, 1int,
{
    lemma_unary_advances(tokens, pos);
    if token_at(tokens, pos) is Plus || token_at(tokens, pos) is Minus {
        lemma_unary_tokens(tokens, pos + 1);
        match unary(tokens, pos + 1) {
            Ok((operand, next)) => {
                assert(tokens.subrange(pos, next) =~= seq![tokens[pos]] + tokens.subrange(
                    pos + 1,
                    next,
                ));
            },
            Err(_) => {},
        }
    } else {
        lemma_primary_tokens(tokens, pos);
    }
}

/// A left operand written with the tokens from `start` to `pos`, and what
/// follows it, are written with the tokens from `start` on.
pub proof fn lemma_factors_tokens(
    tokens: Seq<TokenView>,
    start: int,
    pos: int,
    left: ExpressionView,
)
    requires
        0 <= start <= pos <= tokens.len(),
        tokens.subrange(start, pos) == expression_tokens(left),
    ensures
        factors(tokens, pos, left) matches Ok((e, next)) ==> pos <= next <= tokens.len()
            && tokens.subrange(start, next) == expression_tokens(e),
    decreases tokens.len() - pos, 2int,
{
    if token_at(tokens, pos) is Asterisk || token_at(tokens, pos) is Slash {
        lemma_unary_tokens(tokens, pos + 1);
        match unary(tokens, pos + 1) {
            Ok((right, next)) => {
                let op = if token_at(tokens, pos) is Asterisk {
                    Operator::Multiply
                } else {
                    Operator::Divide
                };
                let both = ExpressionView::Binary(op, Box::new(left), Box::new(right));
                assert(tokens.subrange(start, next) =~= tokens.subrange(start, pos).push(
                    tokens[pos],
                ) + tokens.subrange(pos + 1, next));
                lemma_factors_tokens(tokens, start, next, both);
            },
            Err(_) => {},
        }
    }
}

/// A term is written with the tokens that it was parsed from.
pub proof fn lemma_term_tokens(tokens: Seq<TokenView>, pos: int)
    requires
        0 <= pos,
    ensures
        term(tokens, pos) matches Ok((e, next)) ==> pos < next <= tokens.len()
            && tokens.subrange(pos, next) == expression_tokens(e),
    decreases tokens.len() - pos, 3int,
{
    lemma_term_advances(tokens, pos);
    lemma_unary_tokens(tokens, pos);
    match unary(tokens, pos) {
        Ok((left, next)) => {
            lemma_factors_tokens(tokens, pos, next, left);
        },
        Err(_) => {},
    }
}

/// A left term written with the tokens from `start` to `pos`, and what
/// follows it, are written with the tokens from `start` on.
pub proof fn lemma_terms_tokens(
    tokens: Seq<TokenView>,
    start: int,
    pos: int,
    left: ExpressionView,
)
    requires
        0 <= start <= pos <= tokens.len(),
        tokens.subrange(start, pos) == expression_tokens(left),
    ensures
        terms(tokens, pos, left) matches Ok((e, next)) ==> pos <= next <= tokens.len()
            && tokens.subrange(start, next) == expression_tokens(e),
    decreases tokens.len() - pos, 4int,
{
    if token_at(tokens, pos) is Plus || token_at(tokens, pos) is Minus {
        lemma_term_tokens(tokens, pos + 1);
        match term(tokens, pos + 1) {
            Ok((right, next)) => {
                let op = if token_at(tokens, pos) is Plus {
                    Operator::Plus
                } else {
                    Operator::Minus
                };
                let both = ExpressionView::Binary(op, Box::new(left), Box::new(right));
                assert(tokens.subrange(start, next) =~= tokens.subrange(start, pos).push(
                    tokens[pos],
                ) + tokens.subrange(pos + 1, next));
                lemma_terms_tokens(tokens, start, next, both);
            },
            Err(_) => {},
        }
    }
}

/// Parsing loses nothing and invents nothing: an expression is written with
/// exactly the tokens that it was parsed from, in their order.
pub proof fn lemma_expression_tokens(tokens: Seq<TokenView>, pos: int)
    requires
        0 <= pos,
    ensures
        expression(tokens, pos) matches Ok((e, next)) ==> pos < next <= tokens.len()
            && tokens.subrange(pos, next) == expression_tokens(e),
    decreases tokens.len() - pos, 5int,
{
    lemma_expression_advances(tokens, pos);
    lemma_term_tokens(tokens, pos);
    match term(tokens, pos) {
        Ok((left, next)) => {
            lemma_terms_tokens(tokens, pos, next, left);
        },
        Err(_) => {},
    }
}

/// A statement is written with exactly the tokens that it was parsed from,
/// in their order.
pub proof fn lemma_statement_tokens(tokens: Seq<TokenView>, pos: int)
    requires
        0 <= pos,
    ensures
        statement(tokens, pos) matches Ok((s, next)) ==> pos < next <= tokens.len()
            && tokens.subrange(pos, next) == statement_tokens(s),
{
    lemma_statement_advances(tokens, pos);
    lemma_expression_tokens(tokens, pos);
    lemma_expression_tokens(tokens, pos + 2);
    match statement(tokens, pos) {
        Ok((s, next)) => {
            if s is Assignment {
                assert(tokens.subrange(pos, next) =~= seq![tokens[pos], tokens[pos + 1]]
                    + tokens.subrange(pos + 2, next));
            }
        },
        Err(_) => {},
    }
}

/// A parser over a sequence of tokens.
pub struct Parser {
    tokens: Vec<Token>,
    position: usize,
}

/// What a [`Parser`] stands for: its tokens and how far it has read.
pub struct ParserView {
    pub tokens: Seq<TokenView>,
    pub position: int,
}

impl View for Parser {
    type V = ParserView;

    closed spec fn view(&self) -> ParserView {
        ParserView { tokens: token_views(self.tokens@), position: self.position as int }
    }
}

/// The error for the token `found`, which stands where `expected` should.
fn unexpected_token(found: &Token, expected: Expected) -> (e: ParseError)
    ensures
        e@ == unexpected(found@, expected),
{
    match found {
        Token::EOF => ParseError::UnexpectedEndOfInput(expected),
        _ => ParseError::UnexpectedToken(found.duplicate(), expected),
    }
}

impl Parser {
    /// A parser at the start of `tokens`.
    pub fn new(tokens: Vec<Token>) -> (parser: Parser)
        ensures
            parser@.tokens == token_views(tokens@),
            parser@.position == 0,
    {
        Parser { tokens, position: 0 }
    }

    /// The views of the tokens.
    spec fn all(&self) -> Seq<TokenView> {
        token_views(self.tokens@)
    }

    /// The error for what stands at the current position, where `expected`
    /// should.
    fn unexpected_here(&self, expected: Expected) -> (e: ParseError)
        ensures
            e@ == unexpected(token_at(self.all(), self.position as int), expected),
    {
        if self.position < self.tokens.len() {
            unexpected_token(&self.tokens[self.position], expected)
        } else {
            ParseError::UnexpectedEndOfInput(expected)
        }
    }

    /// Parses an operand.
    fn parse_primary(&mut self) -> (r: Result<Expression, ParseError>)
        ensures
            final(self).tokens == old(self).tokens,
            match r {
                Ok(e) => primary(old(self).all(), old(self).position as int) == Ok::<
                    (ExpressionView, int),
                    ParseErrorView,
                >((e@, final(self).position as int)) && old(self).position < final(self).position
                    <= old(self).tokens.len(),
                Err(error) => primary(old(self).all(), old(self).position as int) == Err::<
                    (ExpressionView, int),
                    ParseErrorView,
                >(error@),
            },
        decreases old(self).tokens.len() - old(self).position, 0int,
    {
        let here = self.position;
        if here >= self.tokens.len() {
            return Err(ParseError::UnexpectedEndOfInput(Expected::Operand));
        }
        match &self.tokens[here] {
            Token::Number(text) => {
                let e = Expression::Number(text.clone());
                self.position = here + 1;
                Ok(e)
            },
            Token::Identifier(name) => {
                let e = Expression::Identifier(name.clone());
                self.position = here + 1;
                Ok(e)
            },
            Token::LParen => {
                self.position = here + 1;
                let inner = match self.parse_expression() {
                    Ok(inner) => inner,
                    Err(error) => {
                        return Err(error);
                    },
                };
                let closed = self.position < self.tokens.len() && match &self.tokens[self.position] {
                    Token::RParen => true,
                    _ => false,
                };
                if closed {
                    self.position = self.position + 1;
                    Ok(Expression::Grouped(Box::new(inner)))
                } else {
                    Err(self.unexpected_here(Expected::ClosingParenthesis))
                }
            },
            found => Err(unexpected_token(found, Expected::Operand)),
        }
    }

    /// Parses an operand with the prefix operators before it.
    fn parse_unary(&mut self) -> (r: Result<Expression, ParseError>)
        ensures
            final(self).tokens == old(self).tokens,
            match r {
                Ok(e) => unary(old(self).all(), old(self).position as int) == Ok::<
                    (ExpressionView, int),
                    ParseErrorView,
                >((e@, final(self).position as int)) && old(self).position < final(self).position
                    <= old(self).tokens.len(),
                Err(error) => unary(old(self).all(), old(self).position as int) == Err::<
                    (ExpressionView, int),
                    ParseErrorView,
                >(error@),
            },
        decreases old(self).tokens.len() - old(self).position, 1int,
    {
        let here = self.position;
        let op = if here < self.tokens.len() {
            match &self.tokens[here] {
                Token::Plus => Some(Operator::Plus),
                Token::Minus => Some(Operator::Minus),
                _ => None,
            }
        } else {
            None
        };
        match op {
            Some(op) => {
                self.position = here + 1;
                match self.parse_unary() {
                    Ok(operand) => Ok(Expression::Unary(op, Box::new(operand))),
                    Err(error) => Err(error),
                }
            },
            None => self.parse_primary(),
        }
    }

    /// Parses a product or quotient of operands.
    fn parse_term(&mut self) -> (r: Result<Expression, ParseError>)
        ensures
            final(self).tokens == old(self).tokens,
            match r {
                Ok(e) => term(old(self).all(), old(self).position as int) == Ok::<
                    (ExpressionView, int),
                    ParseErrorView,
                >((e@, final(self).position as int)) && old(self).position < final(self).position
                    <= old(self).tokens.len(),
                Err(error) => term(old(self).all(), old(self).position as int) == Err::<
                    (ExpressionView, int),
                    ParseErrorView,
                >(error@),
            },
        decreases old(self).tokens.len() - old(self).position, 3int,
    {
        let mut left = match self.parse_unary() {
            Ok(left) => left,
            Err(error) => {
                return Err(error);
            },
        };
        loop
            invariant
                self.tokens == old(self).tokens,
                old(self).position < self.position <= self.tokens.len(),
                term(old(self).all(), old(self).position as int) == factors(
                    self.all(),
                    self.position as int,
                    left@,
                ),
            decreases self.tokens.len() - self.position,
        {
            let here = self.position;
            let op = if here < self.tokens.len() {
                match &self.tokens[here] {
                    Token::Asterisk => Some(Operator::Multiply),
                    Token::Slash => Some(Operator::Divide),
                    _ => None,
                }
            } else {
                None
            };
            let op = match op {
                Some(op) => op,
                None => {
                    return Ok(left);
                },
            };
            self.position = here + 1;
            let right = match self.parse_unary() {
                Ok(right) => right,
                Err(error) => {
                    return Err(error);
                },
            };
            left = Expression::Binary(op, Box::new(left), Box::new(right));
        }
    }

    /// Parses an expression: a sum or difference of terms.
    fn parse_expression(&mut self) -> (r: Result<Expression, ParseError>)
        ensures
            final(self).tokens == old(self).tokens,
            match r {
                Ok(e) => expression(old(self).all(), old(self).position as int) == Ok::<
                    (ExpressionView, int),
                    ParseErrorView,
                >((e@, final(self).position as int)) && old(self).position < final(self).position
                    <= old(self).tokens.len(),
                Err(error) => expression(old(self).all(), old(self).position as int) == Err::<
                    (ExpressionView, int),
                    ParseErrorView,
                >(error@),
            },
        decreases old(self).tokens.len() - old(self).position, 5int,
    {
        let mut left = match self.parse_term() {
            Ok(left) => left,
            Err(error) => {
                return Err(error);
            },
        };
        loop
            invariant
                self.tokens == old(self).tokens,
                old(self).position < self.position <= self.tokens.len(),
                expression(old(self).all(), old(self).position as int) == terms(
                    self.all(),
                    self.position as int,
                    left@,
                ),
            decreases self.tokens.len() - self.position,
        {
            let here = self.position;
            let op = if here < self.tokens.len() {
                match &self.tokens[here] {
                    Token::Plus => Some(Operator::Plus),
                    Token::Minus => Some(Operator::Minus),
                    _ => None,
                }
            } else {
                None
            };
            let op = match op {
                Some(op) => op,
                None => {
                    return Ok(left);
                },
            };
            self.position = here + 1;
            let right = match self.parse_term() {
                Ok(right) => right,
                Err(error) => {
                    return Err(error);
                },
            };
            left = Expression::Binary(op, Box::new(left), Box::new(right));
        }
    }

    /// Parses a statement.
    fn parse_statement(&mut self) -> (r: Result<Statement, ParseError>)
        ensures
            final(self).tokens == old(self).tokens,
            match r {
                Ok(s) => statement(old(self).all(), old(self).position as int) == Ok::<
                    (StatementView, int),
                    ParseErrorView,
                >((s@, final(self).position as int)) && old(self).position < final(self).position
                    <= old(self).tokens.len(),
                Err(error) => statement(old(self).all(), old(self).position as int) == Err::<
                    (StatementView, int),
                    ParseErrorView,
                >(error@),
            },
    {
        let here = self.position;
        let assigns = here < self.tokens.len() && here + 1 < self.tokens.len() && match &self.tokens[here
            + 1] {
            Token::Assign => true,
            _ => false,
        };
        if assigns {
            match &self.tokens[here] {
                Token::Identifier(name) => {
                    let variable = name.clone();
                    self.position = here + 2;
                    return match self.parse_expression() {
                        Ok(value) => Ok(Statement::Assignment(Assignment { variable, value })),
                        Err(error) => Err(error),
                    };
                },
                _ => {},
            }
        }
        match self.parse_expression() {
            Ok(value) => Ok(Statement::Expression(value)),
            Err(error) => Err(error),
        }
    }

    /// Parses the tokens from the current position on into a program.
    pub fn parse(&mut self) -> (r: Result<Program, ParseError>)
        ensures
            final(self)@.tokens == old(self)@.tokens,
            r is Ok ==> token_at(final(self)@.tokens, final(self)@.position) is EOF,
            match r {
                Ok(parsed) => program(old(self)@.tokens, old(self)@.position, Seq::empty()) == Ok::<
                    Seq<StatementView>,
                    ParseErrorView,
                >(parsed@),
                Err(error) => program(old(self)@.tokens, old(self)@.position, Seq::empty()) == Err::<
                    Seq<StatementView>,
                    ParseErrorView,
                >(error@),
            },
    {
        let mut statements: Vec<Statement> = Vec::new();
        assert(statements@.map_values(|s: Statement| s@) =~= Seq::<StatementView>::empty());
        loop
            invariant
                self.tokens == old(self).tokens,
                program(old(self).all(), old(self).position as int, Seq::empty()) == program(
                    self.all(),
                    self.position as int,
                    statements@.map_values(|s: Statement| s@),
                ),
            decreases self.tokens.len() - self.position,
        {
            let here = self.position;
            if here >= self.tokens.len() {
                return Ok(Program { statements });
            }
            match &self.tokens[here] {
                Token::EOF => {
                    return Ok(Program { statements });
                },
                Token::Newline => {
                    self.position = here + 1;
                    continue ;
                },
                _ => {},
            }
            let next_statement = match self.parse_statement() {
                Ok(next_statement) => next_statement,
                Err(error) => {
                    return Err(error);
                },
            };
            let ends = self.position >= self.tokens.len() || match &self.tokens[self.position] {
                Token::Newline | Token::EOF => true,
                _ => false,
            };
            if !ends {
                return Err(
                    ParseError::UnexpectedToken(
                        self.tokens[self.position].duplicate(),
                        Expected::EndOfStatement,
                    ),
                );
            }
            let ghost before = statements@.map_values(|s: Statement| s@);
            statements.push(next_statement);
            assert(statements@.map_values(|s: Statement| s@) =~= before.push(next_statement@));
        }
    }
}

} // verus!
