//! The vocabulary shared by the tokenizer and the parser.

use vstd::prelude::*;

verus! {

/// One lexical unit of a line.
#[derive(Debug, Clone, PartialEq)]
pub enum Token {
    /// A name.
    Identifier(String),
    /// A numeral, kept as the text it was written with.
    Number(String),
    /// `+`
    Plus,
    /// `-`
    Minus,
    /// `*`
    Asterisk,
    /// `/`
    Slash,
    /// `=`
    Assign,
    /// `(`
    LParen,
    /// `)`
    RParen,
    /// The end of a logical line.
    Newline,
    /// The end of the input.
    EOF,
}

/// The mathematical value of a [`Token`]: the same variants over sequences of
/// characters.
pub enum TokenView {
    Identifier(Seq<char>),
    Number(Seq<char>),
    Plus,
    Minus,
    Asterisk,
    Slash,
    Assign,
    LParen,
    RParen,
    Newline,
    EOF,
}

impl View for Token {
    type V = TokenView;

    open spec fn view(&self) -> TokenView {
        match self {
            Token::Identifier(name) => TokenView::Identifier(name@),
            Token::Number(text) => TokenView::Number(text@),
            Token::Plus => TokenView::Plus,
            Token::Minus => TokenView::Minus,
            Token::Asterisk => TokenView::Asterisk,
            Token::Slash => TokenView::Slash,
            Token::Assign => TokenView::Assign,
            Token::LParen => TokenView::LParen,
            Token::RParen => TokenView::RParen,
            Token::Newline => TokenView::Newline,
            Token::EOF => TokenView::EOF,
        }
    }
}

/// The views of a sequence of tokens, element by element.
pub open spec fn token_views(tokens: Seq<Token>) -> Seq<TokenView> {
    tokens.map_values(|t: Token| t@)
}

impl TokenView {
    /// Whether the token is one of the four arithmetic operators.
    pub open spec fn is_operator(self) -> bool {
        self is Plus || self is Minus || self is Asterisk || self is Slash
    }

    /// How the token is shown to a reader.
    pub open spec fn text(self) -> Seq<char> {
        match self {
            TokenView::Identifier(name) => "Identifier("@ + name + ")"@,
            TokenView::Number(text) => "Number("@ + text + ")"@,
            TokenView::Plus => "+"@,
            TokenView::Minus => "-"@,
            TokenView::Asterisk => "*"@,
            TokenView::Slash => "/"@,
            TokenView::Assign => "="@,
            TokenView::LParen => "("@,
            TokenView::RParen => ")"@,
            TokenView::Newline => "newline"@,
            TokenView::EOF => "EOF"@,
        }
    }
}

impl Token {
    /// A copy of the token.
    pub fn duplicate(&self) -> (t: Token)
        ensures
            t@ == self@,
    {
        match self {
            Token::Identifier(name) => Token::Identifier(name.clone()),
            Token::Number(text) => Token::Number(text.clone()),
            Token::Plus => Token::Plus,
            Token::Minus => Token::Minus,
            Token::Asterisk => Token::Asterisk,
            Token::Slash => Token::Slash,
            Token::Assign => Token::Assign,
            Token::LParen => Token::LParen,
            Token::RParen => Token::RParen,
            Token::Newline => Token::Newline,
            Token::EOF => Token::EOF,
        }
    }

    /// The token as shown to a reader: an identifier or numeral with its
    /// kind around its text, a symbol as itself.
    pub fn to_string(&self) -> (s: String)
        ensures
            s@ == self@.text(),
    {
        match self {
            Token::Identifier(name) => {
                let mut s = String::from_str("Identifier(");
                s.append(name.as_str());
                s.append(")");
                s
            },
            Token::Number(text) => {
                let mut s = String::from_str("Number(");
                s.append(text.as_str());
                s.append(")");
                s
            },
            Token::Plus => String::from_str("+"),
            Token::Minus => String::from_str("-"),
            Token::Asterisk => String::from_str("*"),
            Token::Slash => String::from_str("/"),
            Token::Assign => String::from_str("="),
            Token::LParen => String::from_str("("),
            Token::RParen => String::from_str(")"),
            Token::Newline => String::from_str("newline"),
            Token::EOF => String::from_str("EOF"),
        }
    }
}

} // verus!
