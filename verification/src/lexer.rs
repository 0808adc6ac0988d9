//! The tokenizer: one pass over the characters of a line, with one character
//! of lookahead.

use crate::decimal::{natural_text, push_natural};
use crate::text::{
    char_is_digit, char_is_letter, chars_of, digits_end, is_digit, is_letter,
    lemma_digits_end_bounds, text_of,
};
use crate::token::{token_views, Token, TokenView};
use vstd::prelude::*;

verus! {

/// Why a line could not be split into tokens.
#[derive(Debug, Clone, Copy, PartialEq, Eq)]
pub enum LexerError {
    /// A character that no token can start with, and its zero-based offset,
    /// counted in characters.
    UnexpectedCharacter(char, usize),
}

impl LexerError {
    /// The error as a sentence.
    pub open spec fn message(self) -> Seq<char> {
        match self {
            LexerError::UnexpectedCharacter(c, offset) => "Unexpected character: '"@.push(c)
                + "' at position "@ + natural_text(offset as nat),
        }
    }

    /// The error as a sentence.
    pub fn to_string(&self) -> (s: String)
        ensures
            s@ == self.message(),
    {
        match self {
            LexerError::UnexpectedCharacter(c, offset) => {
                let mut s = String::from_str("Unexpected character: '");
                s.push(*c);
                s.append("' at position ");
                push_natural(&mut s, *offset as u64);
                s
            },
        }
    }
}

/// Space, tab and carriage return: skipped between tokens.
pub open spec fn is_blank(c: char) -> bool {
    c == ' ' || c == '\t' || c == '\r'
}

/// The characters that may follow the whole part of a numeral.
pub open spec fn is_separator(c: char) -> bool {
    c == '.' || c == ';' || c == ','
}

/// The characters that an identifier may start with.
pub open spec fn starts_identifier(c: char) -> bool {
    is_letter(c) || c == '_'
}

/// The characters that an identifier may go on with.
pub open spec fn continues_identifier(c: char) -> bool {
    is_letter(c) || c == '_' || is_digit(c)
}

/// The end of the longest run of identifier characters that starts at `start`.
pub open spec fn identifier_end(s: Seq<char>, start: int) -> int
    decreases s.len() - start,
{
    if 0 <= start < s.len() && continues_identifier(s[start]) {
        identifier_end(s, start + 1)
    } else {
        start
    }
}

/// The end of the numeral whose digits start at `start`: a run of digits,
/// then at most one separator with the run of digits that follows it.
pub open spec fn number_end(s: Seq<char>, start: int) -> int {
    let whole = digits_end(s, start);
    if 0 <= whole < s.len() && is_separator(s[whole]) {
        digits_end(s, whole + 1)
    } else {
        whole
    }
}

/// Whether a `-` directly before a digit belongs to the numeral: at the start
/// of the tokens, and after an operator, `=` or `(`.
pub open spec fn sign_allowed(emitted: Seq<TokenView>) -> bool {
    emitted.len() == 0 || emitted.last().is_operator() || emitted.last() is Assign
        || emitted.last() is LParen
}

/// The token that starts at `pos`, which holds no blank, and the position
/// after it; `None` where no token starts with that character.
pub open spec fn token_at(s: Seq<char>, pos: int, emitted: Seq<TokenView>) -> Option<
    (TokenView, int),
> {
    let c = s[pos];
    if c == '\n' {
        Some((TokenView::Newline, pos + 1))
    } else if c == '+' {
        Some((TokenView::Plus, pos + 1))
    } else if c == '-' {
        if pos + 1 < s.len() && is_digit(s[pos + 1]) && sign_allowed(emitted) {
            let end = number_end(s, pos + 1);
            Some((TokenView::Number(s.subrange(pos, end)), end))
        } else {
            Some((TokenView::Minus, pos + 1))
        }
    } else if c == '*' {
        Some((TokenView::Asterisk, pos + 1))
    } else if c == '/' {
        Some((TokenView::Slash, pos + 1))
    } else if c == '=' {
        Some((TokenView::Assign, pos + 1))
    } else if c == '(' {
        Some((TokenView::LParen, pos + 1))
    } else if c == ')' {
        Some((TokenView::RParen, pos + 1))
    } else if is_separator(c) {
        None
    } else if starts_identifier(c) {
        let end = identifier_end(s, pos);
        Some((TokenView::Identifier(s.subrange(pos, end)), end))
    } else if is_digit(c) {
        let end = number_end(s, pos);
        Some((TokenView::Number(s.subrange(pos, end)), end))
    } else {
        None
    }
}

/// The tokens of `s` from `pos` on, after those already emitted: the whole
/// sequence with the end-of-input token last, or the first character that no
/// token starts with.
pub open spec fn lex_from(s: Seq<char>, pos: int, emitted: Seq<TokenView>) -> Result<
    Seq<TokenView>,
    LexerError,
>
    decreases s.len() - pos,
{
    if !(0 <= pos < s.len()) {
        Ok(emitted.push(TokenView::EOF))
    } else if is_blank(s[pos]) {
        lex_from(s, pos + 1, emitted)
    } else {
        match token_at(s, pos, emitted) {
            Some((token, end)) => {
                proof {
                    lemma_token_at_advances(s, pos, emitted);
                }
                lex_from(s, end, emitted.push(token))
            },
            None => Err(LexerError::UnexpectedCharacter(s[pos], pos as usize)),
        }
    }
}

/// The tokens of the whole of `s`.
pub open spec fn lex(s: Seq<char>) -> Result<Seq<TokenView>, LexerError> {
    lex_from(s, 0, Seq::empty())
}

/// A run of identifier characters ends at or after its start, within the text.
pub proof fn lemma_identifier_end_bounds(s: Seq<char>, start: int)
    requires
        0 <= start <= s.len(),
    ensures
        start <= identifier_end(s, start) <= s.len(),
    decreases s.len() - start,
{
    if start < s.len() && continues_identifier(s[start]) {
        lemma_identifier_end_bounds(s, start + 1);
    }
}

/// A numeral ends at or after the start of its digits, within the text.
pub proof fn lemma_number_end_bounds(s: Seq<char>, start: int)
    requires
        0 <= start <= s.len(),
    ensures
        start <= digits_end(s, start) <= number_end(s, start) <= s.len(),
{
    lemma_digits_end_bounds(s, start);
    let whole = digits_end(s, start);
    if whole < s.len() {
        lemma_digits_end_bounds(s, whole + 1);
    }
}

/// Every token holds at least one character and ends within the text.
pub proof fn lemma_token_at_advances(s: Seq<char>, pos: int, emitted: Seq<TokenView>)
    requires
        0 <= pos < s.len(),
    ensures
        token_at(s, pos, emitted) matches Some((_, end)) ==> pos < end <= s.len(),
{
    let c = s[pos];
    lemma_number_end_bounds(s, pos + 1);
    lemma_number_end_bounds(s, pos);
    lemma_digits_end_bounds(s, pos + 1);
    lemma_identifier_end_bounds(s, pos + 1);
}

/// The tokens of a text keep those already emitted and end with the
/// end-of-input token, which stands nowhere else among the new ones.
pub proof fn lemma_lex_ends_with_eof(s: Seq<char>, pos: int, emitted: Seq<TokenView>)
    ensures
        lex_from(s, pos, emitted) matches Ok(tokens) ==> {
            &&& tokens.len() > emitted.len()
            &&& tokens.subrange(0, emitted.len() as int) == emitted
            &&& tokens.last() is EOF
            &&& forall|i: int| emitted.len() <= i < tokens.len() - 1 ==> !(tokens[i] is EOF)
        },
    decreases s.len() - pos,
{
    if !(0 <= pos < s.len()) {
        assert(emitted.push(TokenView::EOF).subrange(0, emitted.len() as int) =~= emitted);
    } else if is_blank(s[pos]) {
        lemma_lex_ends_with_eof(s, pos + 1, emitted);
    } else {
        match token_at(s, pos, emitted) {
            Some((token, end)) => {
                lemma_token_at_advances(s, pos, emitted);
                lemma_lex_ends_with_eof(s, end, emitted.push(token));
                if lex_from(s, pos, emitted) is Ok {
                    let tokens = lex_from(s, pos, emitted)->Ok_0;
                    let longer = emitted.push(token);
                    assert(tokens.subrange(0, longer.len() as int) == longer);
                    assert(tokens.subrange(0, emitted.len() as int) =~= emitted) by {
                        assert forall|i: int| 0 <= i < emitted.len() implies tokens[i]
                            == emitted[i] by {
                            assert(tokens.subrange(0, longer.len() as int)[i] == longer[i]);
                        }
                    }
                    assert(tokens[emitted.len() as int] == token) by {
                        assert(tokens.subrange(0, longer.len() as int)[emitted.len() as int]
                            == longer[emitted.len() as int]);
                    }
                }
            },
            None => {},
        }
    }
}

/// The characters that a token is written with. The end-of-input token is
/// written with none.
pub open spec fn token_source(token: TokenView) -> Seq<char> {
    match token {
        TokenView::Identifier(name) => name,
        TokenView::Number(text) => text,
        TokenView::Plus => seq!['+'],
        TokenView::Minus => seq!['-'],
        TokenView::Asterisk => seq!['*'],
        TokenView::Slash => seq!['/'],
        TokenView::Assign => seq!['='],
        TokenView::LParen => seq!['('],
        TokenView::RParen => seq![')'],
        TokenView::Newline => seq!['\n'],
        TokenView::EOF => Seq::empty(),
    }
}

/// The characters that a sequence of tokens is written with, in order.
pub open spec fn tokens_source(tokens: Seq<TokenView>) -> Seq<char>
    decreases tokens.len(),
{
    if tokens.len() == 0 {
        Seq::empty()
    } else {
        tokens_source(tokens.drop_last()) + token_source(tokens.last())
    }
}

/// The characters of `s` from `from` on that are no blanks, in order.
pub open spec fn without_blanks(s: Seq<char>, from: int) -> Seq<char>
    decreases s.len() - from,
{
    if 0 <= from < s.len() {
        if is_blank(s[from]) {
            without_blanks(s, from + 1)
        } else {
            seq![s[from]] + without_blanks(s, from + 1)
        }
    } else {
        Seq::empty()
    }
}

/// A run of digits holds digits only.
pub proof fn lemma_digits_run(s: Seq<char>, start: int)
    requires
        0 <= start <= s.len(),
    ensures
        forall|j: int| start <= j < digits_end(s, start) ==> is_digit(#[trigger] s[j]),
    decreases s.len() - start,
{
    if start < s.len() && is_digit(s[start]) {
        lemma_digits_run(s, start + 1);
    }
}

/// A run of identifier characters holds identifier characters only.
pub proof fn lemma_identifier_run(s: Seq<char>, start: int)
    requires
        0 <= start <= s.len(),
    ensures
        forall|j: int|
            start <= j < identifier_end(s, start) ==> continues_identifier(#[trigger] s[j]),
    decreases s.len() - start,
{
    if start < s.len() && continues_identifier(s[start]) {
        lemma_identifier_run(s, start + 1);
    }
}

/// A numeral holds digits and separators only.
pub proof fn lemma_number_run(s: Seq<char>, start: int)
    requires
        0 <= start <= s.len(),
    ensures
        forall|j: int|
            start <= j < number_end(s, start) ==> is_digit(#[trigger] s[j]) || is_separator(s[j]),
{
    lemma_digits_run(s, start);
    lemma_digits_end_bounds(s, start);
    let whole = digits_end(s, start);
    if whole < s.len() {
        lemma_digits_run(s, whole + 1);
    }
}

/// Where no blank stands from `from` to `to`, the characters without the
/// blanks start with all of those from `from` to `to`.
pub proof fn lemma_without_blanks_run(s: Seq<char>, from: int, to: int)
    requires
        0 <= from <= to <= s.len(),
        forall|j: int| from <= j < to ==> !is_blank(#[trigger] s[j]),
    ensures
        without_blanks(s, from) == s.subrange(from, to) + without_blanks(s, to),
    decreases to - from,
{
    if from == to {
        assert(s.subrange(from, to) + without_blanks(s, to) =~= without_blanks(s, to));
    } else {
        lemma_without_blanks_run(s, from + 1, to);
        assert(!is_blank(s[from]));
        assert(seq![s[from]] + (s.subrange(from + 1, to) + without_blanks(s, to)) =~= s.subrange(
            from,
            to,
        ) + without_blanks(s, to));
    }
}

/// A token is written with the characters from its start to its end, none of
/// which is a blank.
pub proof fn lemma_token_source(s: Seq<char>, pos: int, emitted: Seq<TokenView>)
    requires
        0 <= pos < s.len(),
        !is_blank(s[pos]),
    ensures
        token_at(s, pos, emitted) matches Some((token, end)) ==> {
            &&& pos < end <= s.len()
            &&& token_source(token) == s.subrange(pos, end)
            &&& forall|j: int| pos <= j < end ==> !is_blank(#[trigger] s[j])
        },
{
    lemma_token_at_advances(s, pos, emitted);
    match token_at(s, pos, emitted) {
        Some((token, end)) => {
            lemma_number_run(s, pos);
            lemma_number_run(s, pos + 1);
            lemma_identifier_run(s, pos);
            if !(token is Identifier || token is Number) {
                assert(s.subrange(pos, end) =~= seq![s[pos]]);
            }
        },
        None => {},
    }
}

/// Tokenizing loses nothing but blanks: the tokens of a text are written, in
/// order, with its characters that are no blanks.
pub proof fn lemma_lex_source(s: Seq<char>, pos: int, emitted: Seq<TokenView>)
    requires
        0 <= pos,
    ensures
        lex_from(s, pos, emitted) matches Ok(tokens) ==> tokens_source(tokens) == tokens_source(
            emitted,
        ) + without_blanks(s, pos),
    decreases s.len() - pos,
{
    if !(pos < s.len()) {
        let tokens = emitted.push(TokenView::EOF);
        assert(tokens.drop_last() =~= emitted);
        assert(tokens_source(tokens) =~= tokens_source(emitted) + without_blanks(s, pos));
    } else if is_blank(s[pos]) {
        lemma_lex_source(s, pos + 1, emitted);
    } else {
        match token_at(s, pos, emitted) {
            Some((token, end)) => {
                lemma_token_source(s, pos, emitted);
                lemma_lex_source(s, end, emitted.push(token));
                lemma_without_blanks_run(s, pos, end);
                let longer = emitted.push(token);
                assert(longer.drop_last() =~= emitted);
                assert((tokens_source(emitted) + token_source(token)) + without_blanks(s, end)
                    =~= tokens_source(emitted) + (s.subrange(pos, end) + without_blanks(s, end)));
            },
            None => {},
        }
    }
}

/// A tokenizer over the characters of one input.
pub struct Lexer {
    input: Vec<char>,
    position: usize,
}

/// What a [`Lexer`] stands for: its input and how far it has read.
pub struct LexerView {
    pub input: Seq<char>,
    pub position: int,
}

impl View for Lexer {
    type V = LexerView;

    closed spec fn view(&self) -> LexerView {
        LexerView { input: self.input@, position: self.position as int }
    }
}

impl Lexer {
    /// A tokenizer at the start of `input`.
    pub fn new(input: &str) -> (lexer: Lexer)
        ensures
            lexer@.input == input@,
            lexer@.position == 0,
    {
        Lexer { input: chars_of(input), position: 0 }
    }

    /// Moves on by one character, unless the input has ended.
    fn read_char(&mut self)
        ensures
            final(self).input == old(self).input,
            final(self).position == if old(self).position < old(self).input.len() {
                old(self).position + 1
            } else {
                old(self).position as int
            },
    {
        if self.position < self.input.len() {
            self.position = self.position + 1;
        }
    }

    /// The character after the current one; `'\0'` where there is none.
    fn peek_char(&self) -> (c: char)
        ensures
            c == if self.position + 1 < self.input.len() {
                self.input@[self.position + 1]
            } else {
                '\0'
            },
    {
        if self.position < self.input.len() && self.position + 1 < self.input.len() {
            self.input[self.position + 1]
        } else {
            '\0'
        }
    }

    /// Moves to the end of the run of blanks at the current position.
    fn skip_whitespace(&mut self)
        ensures
            final(self).input == old(self).input,
            old(self).position <= final(self).position,
            old(self).position <= old(self).input.len() ==> final(self).position
                <= final(self).input.len(),
            final(self).position < final(self).input.len() ==> !is_blank(
                final(self).input@[final(self).position as int],
            ),
            forall|emitted: Seq<TokenView>|
                lex_from(old(self).input@, old(self).position as int, emitted) == lex_from(
                    final(self).input@,
                    final(self).position as int,
                    emitted,
                ),
    {
        while self.position < self.input.len() && (self.input[self.position] == ' '
            || self.input[self.position] == '\t' || self.input[self.position] == '\r')
            invariant
                self.input == old(self).input,
                old(self).position <= self.position,
                old(self).position <= old(self).input.len() ==> self.position
                    <= self.input.len(),
                forall|emitted: Seq<TokenView>|
                    lex_from(old(self).input@, old(self).position as int, emitted) == lex_from(
                        self.input@,
                        self.position as int,
                        emitted,
                    ),
            decreases self.input.len() - self.position,
        {
            self.position = self.position + 1;
        }
    }

    /// Moves to the end of the run of digits at the current position.
    fn read_digits(&mut self)
        requires
            old(self).position <= old(self).input.len(),
        ensures
            final(self).input == old(self).input,
            final(self).position == digits_end(old(self).input@, old(self).position as int),
    {
        while self.position < self.input.len() && char_is_digit(self.input[self.position])
            invariant
                self.input == old(self).input,
                self.position <= self.input.len(),
                digits_end(self.input@, self.position as int) == digits_end(
                    old(self).input@,
                    old(self).position as int,
                ),
            decreases self.input.len() - self.position,
        {
            self.position = self.position + 1;
        }
    }

    /// Reads the identifier that starts at the current position.
    fn read_identifier(&mut self) -> (name: String)
        requires
            old(self).position <= old(self).input.len(),
        ensures
            final(self).input == old(self).input,
            final(self).position == identifier_end(old(self).input@, old(self).position as int),
            name@ == old(self).input@.subrange(
                old(self).position as int,
                final(self).position as int,
            ),
    {
        let start = self.position;
        while self.position < self.input.len() && (char_is_letter(self.input[self.position])
            || self.input[self.position] == '_' || char_is_digit(self.input[self.position]))
            invariant
                self.input == old(self).input,
                start == old(self).position,
                start <= self.position <= self.input.len(),
                identifier_end(self.input@, self.position as int) == identifier_end(
                    old(self).input@,
                    old(self).position as int,
                ),
            decreases self.input.len() - self.position,
        {
            self.position = self.position + 1;
        }
        text_of(&self.input, start, self.position)
    }

    /// Reads the numeral that starts at the current position, whose digits
    /// start `sign` characters later: `sign` is 1 where a `-` leads, else 0.
    fn read_number(&mut self, sign: usize) -> (text: String)
        requires
            sign <= 1,
            old(self).position + sign <= old(self).input.len(),
        ensures
            final(self).input == old(self).input,
            final(self).position == number_end(
                old(self).input@,
                old(self).position as int + sign,
            ),
            old(self).position + sign <= final(self).position <= final(self).input.len(),
            text@ == old(self).input@.subrange(
                old(self).position as int,
                final(self).position as int,
            ),
    {
        let start = self.position;
        self.position = self.position + sign;
        proof {
            lemma_digits_end_bounds(self.input@, self.position as int);
        }
        self.read_digits();
        if self.position < self.input.len() && (self.input[self.position] == '.'
            || self.input[self.position] == ';' || self.input[self.position] == ',') {
            self.position = self.position + 1;
            proof {
                lemma_digits_end_bounds(self.input@, self.position as int);
            }
            self.read_digits();
        }
        text_of(&self.input, start, self.position)
    }

    /// Splits the input from the current position on into tokens, the last of
    /// which marks the end of the input. Stops at the first character that no
    /// token starts with, and reports it with its offset.
    pub fn tokenize(&mut self) -> (r: Result<Vec<Token>, LexerError>)
        ensures
            final(self)@.input == old(self)@.input,
            match r {
                Ok(tokens) => {
                    &&& lex_from(old(self)@.input, old(self)@.position, Seq::empty()) == Ok::<
                        Seq<TokenView>,
                        LexerError,
                    >(token_views(tokens@))
                    &&& final(self)@.position >= final(self)@.input.len()
                    &&& tokens@.len() > 0
                    &&& tokens@.last()@ is EOF
                },
                Err(e) => {
                    &&& lex_from(old(self)@.input, old(self)@.position, Seq::empty()) == Err::<
                        Seq<TokenView>,
                        LexerError,
                    >(e)
                    &&& e matches LexerError::UnexpectedCharacter(_, offset)
                        && final(self)@.position == offset
                },
            },
    {
        let mut tokens: Vec<Token> = Vec::new();
        assert(token_views(tokens@) =~= Seq::empty());
        while self.position < self.input.len()
            invariant
                self.input == old(self).input,
                lex_from(old(self).input@, old(self).position as int, Seq::empty()) == lex_from(
                    self.input@,
                    self.position as int,
                    token_views(tokens@),
                ),
            decreases self.input.len() - self.position,
        {
            let ghost emitted = token_views(tokens@);
            let ghost pos = self.position as int;
            let c = self.input[self.position];
            proof {
                lemma_token_at_advances(self.input@, pos, emitted);
            }
            if c == ' ' || c == '\t' || c == '\r' {
                self.skip_whitespace();
                assert(self.position > pos) by {
                    if self.position == pos {
                        assert(is_blank(self.input@[pos]));
                    }
                }
                continue ;
            }
            let token = if c == '\n' {
                self.read_char();
                Token::Newline
            } else if c == '+' {
                self.read_char();
                Token::Plus
            } else if c == '-' {
                let negative = char_is_digit(self.peek_char()) && (tokens.len() == 0 || match &tokens[tokens.len() - 1] {
                    Token::Plus | Token::Minus | Token::Asterisk | Token::Slash | Token::Assign | Token::LParen => true,
                    _ => false,
                });
                assert(negative == (pos + 1 < self.input@.len() && is_digit(self.input@[pos + 1])
                    && sign_allowed(emitted)));
                if negative {
                    Token::Number(self.read_number(1))
                } else {
                    self.read_char();
                    Token::Minus
                }
            } else if c == '*' {
                self.read_char();
                Token::Asterisk
            } else if c == '/' {
                self.read_char();
                Token::Slash
            } else if c == '=' {
                self.read_char();
                Token::Assign
            } else if c == '(' {
                self.read_char();
                Token::LParen
            } else if c == ')' {
                self.read_char();
                Token::RParen
            } else if c == '.' || c == ';' || c == ',' {
                return Err(LexerError::UnexpectedCharacter(c, self.position));
            } else if char_is_letter(c) || c == '_' {
                Token::Identifier(self.read_identifier())
            } else if char_is_digit(c) {
                Token::Number(self.read_number(0))
            } else {
                return Err(LexerError::UnexpectedCharacter(c, self.position));
            };
            assert(token_at(self.input@, pos, emitted) == Some((token@, self.position as int)));
            tokens.push(token);
            assert(token_views(tokens@) =~= emitted.push(token@));
        }
        let ghost emitted = token_views(tokens@);
        tokens.push(Token::EOF);
        assert(token_views(tokens@) =~= emitted.push(TokenView::EOF));
        assert(tokens@.last()@ == token_views(tokens@).last());
        Ok(tokens)
    }
}

} // verus!
