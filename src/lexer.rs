use vstd::prelude::*;
use vstd::string::StrSliceExecFns;

verus! {

/// A token of executable form, produced one at a time by the lexer.
#[derive(Debug, Clone, PartialEq)]
pub enum Token {
    Show,
    Identifier(String),
    /// The literal text of a number: digits with at most one dot.
    Number(String),
    StringLiteral(String),
    Equals,
    LParen,
    RParen,
    Comma,
    Eof,
}

/// The mathematical model of a token.
pub enum Tok {
    Show,
    Identifier(Seq<char>),
    Number(Seq<char>),
    StringLiteral(Seq<char>),
    Equals,
    LParen,
    RParen,
    Comma,
    Eof,
}

impl View for Token {
    type V = Tok;

    open spec fn view(&self) -> Tok {
        match self {
            Token::Show => Tok::Show,
            Token::Identifier(s) => Tok::Identifier(s@),
            Token::Number(s) => Tok::Number(s@),
            Token::StringLiteral(s) => Tok::StringLiteral(s@),
            Token::Equals => Tok::Equals,
            Token::LParen => Tok::LParen,
            Token::RParen => Tok::RParen,
            Token::Comma => Tok::Comma,
            Token::Eof => Tok::Eof,
        }
    }
}

/// Why a program could not be read.
#[derive(Clone, Copy, Debug, PartialEq, Eq, Structural)]
pub enum SyntaxError {
    /// A token that cannot stand where it was found.
    UnexpectedToken,
    /// The input ended inside a statement.
    Unterminated,
    /// A run of digits and dots that is not a number (two dots, or no digit).
    MalformedNumber,
}

/// Relies on `String::push`: the character is appended at the end.
pub assume_specification[ String::push ](s: &mut String, ch: char)
    ensures
        final(s)@ == old(s)@.push(ch),
;

/// Whether `char::is_alphanumeric` holds of a character (Unicode tables).
pub uninterp spec fn alphanumeric(c: char) -> bool;

/// Relies on `char::is_alphanumeric`: Unicode letters and numbers, that is
/// `is_alphabetic() || is_numeric()`; among ASCII characters these are the
/// letters and the digits alone.
#[verifier::external_body]
fn is_alphanumeric(c: char) -> (r: bool)
    ensures
        r == alphanumeric(c),
        (c as u32) < 128 ==> (r == (letter(c) || digit(c))),
{
    c.is_alphanumeric()
}

pub open spec fn blank(c: char) -> bool {
    c == ' ' || c == '\t' || c == '\n' || c == '\r'
}

pub open spec fn digit(c: char) -> bool {
    '0' <= c && c <= '9'
}

pub open spec fn number_char(c: char) -> bool {
    digit(c) || c == '.'
}

pub open spec fn letter(c: char) -> bool {
    ('a' <= c && c <= 'z') || ('A' <= c && c <= 'Z')
}

pub open spec fn word_char(c: char) -> bool {
    alphanumeric(c) || c == '_'
}

/// The end of the run of number characters that starts at `i`.
pub open spec fn number_end(s: Seq<char>, i: int) -> int
    decreases s.len() - i,
{
    if 0 <= i < s.len() && number_char(s[i]) {
        number_end(s, i + 1)
    } else {
        i
    }
}

/// The end of the run of word characters that starts at `i`.
pub open spec fn word_end(s: Seq<char>, i: int) -> int
    decreases s.len() - i,
{
    if 0 <= i < s.len() && word_char(s[i]) {
        word_end(s, i + 1)
    } else {
        i
    }
}

/// The first quote at or after `i`, or the end of the input.
pub open spec fn quote_end(s: Seq<char>, i: int) -> int
    decreases s.len() - i,
{
    if 0 <= i < s.len() && s[i] != '"' {
        quote_end(s, i + 1)
    } else {
        i
    }
}

pub open spec fn dot_count(t: Seq<char>) -> nat
    decreases t.len(),
{
    if t.len() == 0 {
        0
    } else {
        dot_count(t.drop_last()) + if t.last() == '.' { 1nat } else { 0nat }
    }
}

/// A run of digits and dots reads as a number when it has at most one dot
/// and at least one digit.
pub open spec fn valid_number(t: Seq<char>) -> bool {
    dot_count(t) <= 1 && dot_count(t) < t.len()
}

pub open spec fn keyword_show() -> Seq<char> {
    seq!['s', 'h', 'o', 'w']
}

pub open spec fn lex_number(s: Seq<char>, i: int) -> (Result<Tok, SyntaxError>, int) {
    let e = number_end(s, i);
    let t = s.subrange(i, e);
    (if valid_number(t) { Ok(Tok::Number(t)) } else { Err(SyntaxError::MalformedNumber) }, e)
}

pub open spec fn lex_string(s: Seq<char>, i: int) -> (Result<Tok, SyntaxError>, int) {
    let e = quote_end(s, i + 1);
    (Ok(Tok::StringLiteral(s.subrange(i + 1, e))), if e < s.len() { e + 1 } else { e })
}

pub open spec fn lex_word(s: Seq<char>, i: int) -> (Result<Tok, SyntaxError>, int) {
    let e = word_end(s, i + 1);
    let t = s.subrange(i, e);
    (Ok(if t == keyword_show() { Tok::Show } else { Tok::Identifier(t) }), e)
}

/// The token that starts at position `i` of `s`, and the position after it.
pub open spec fn lex(s: Seq<char>, i: int) -> (Result<Tok, SyntaxError>, int)
    decreases s.len() - i,
{
    if i < 0 || i >= s.len() {
        (Ok(Tok::Eof), i)
    } else {
        let c = s[i];
        if blank(c) {
            lex(s, i + 1)
        } else if c == '=' {
            (Ok(Tok::Equals), i + 1)
        } else if c == '(' {
            (Ok(Tok::LParen), i + 1)
        } else if c == ')' {
            (Ok(Tok::RParen), i + 1)
        } else if c == ',' {
            (Ok(Tok::Comma), i + 1)
        } else if number_char(c) {
            lex_number(s, i)
        } else if c == '"' {
            lex_string(s, i)
        } else if letter(c) {
            lex_word(s, i)
        } else {
            lex(s, i + 1)
        }
    }
}

pub open spec fn token_result(r: Result<Token, SyntaxError>) -> Result<Tok, SyntaxError> {
    match r {
        Ok(t) => Ok(t@),
        Err(e) => Err(e),
    }
}

proof fn lemma_runs_bounded(s: Seq<char>, i: int)
    requires
        0 <= i <= s.len(),
    ensures
        i <= number_end(s, i) <= s.len(),
        i <= word_end(s, i) <= s.len(),
        i <= quote_end(s, i) <= s.len(),
    decreases s.len() - i,
{
    if i < s.len() {
        lemma_runs_bounded(s, i + 1);
    }
}

/// Lexing never moves backwards, and a token other than the end consumes input.
pub proof fn lemma_lex_bounds(s: Seq<char>, i: int)
    requires
        0 <= i <= s.len(),
    ensures
        i <= lex(s, i).1 <= s.len(),
        lex(s, i).0 != Ok::<Tok, SyntaxError>(Tok::Eof) ==> i < lex(s, i).1,
    decreases s.len() - i,
{
    if i < s.len() {
        lemma_runs_bounded(s, i + 1);
        lemma_lex_bounds(s, i + 1);
        if number_char(s[i]) {
            assert(number_end(s, i) == number_end(s, i + 1));
        }
    }
}

/// The only error the lexer reports is a malformed number.
pub proof fn lemma_lex_errors(s: Seq<char>, i: int)
    ensures
        lex(s, i).0 is Err ==> lex(s, i).0 == Err::<Tok, SyntaxError>(SyntaxError::MalformedNumber),
    decreases s.len() - i,
{
    if 0 <= i < s.len() {
        lemma_lex_errors(s, i + 1);
    }
}

/// Once the input is exhausted the lexer stays at its end: reading again
/// after `Eof` gives `Eof` again, at the same place.
pub proof fn lemma_eof_repeats(s: Seq<char>, i: int)
    requires
        0 <= i <= s.len(),
        lex(s, i).0 == Ok::<Tok, SyntaxError>(Tok::Eof),
    ensures
        lex(s, i).1 == s.len(),
        lex(s, lex(s, i).1) == (Ok::<Tok, SyntaxError>(Tok::Eof), s.len() as int),
    decreases s.len() - i,
{
    if i < s.len() {
        lemma_runs_bounded(s, i + 1);
        lemma_eof_repeats(s, i + 1);
    }
}

/// A symbol that is neither blank nor the start of any token is skipped
/// without a trace: the token read from it on is the token read from the
/// character after it on, ending at the same place.
pub proof fn lemma_unknown_symbol_skipped(s: Seq<char>, i: int)
    requires
        0 <= i < s.len(),
        !blank(s[i]),
        !number_char(s[i]),
        !letter(s[i]),
        s[i] != '=' && s[i] != '(' && s[i] != ')' && s[i] != ',' && s[i] != '"',
    ensures
        lex(s, i) == lex(s, i + 1),
{
}

fn is_blank(c: char) -> (r: bool)
    ensures
        r == blank(c),
{
    c == ' ' || c == '\t' || c == '\n' || c == '\r'
}

fn is_number_char(c: char) -> (r: bool)
    ensures
        r == number_char(c),
{
    ('0' <= c && c <= '9') || c == '.'
}

fn is_letter(c: char) -> (r: bool)
    ensures
        r == letter(c),
{
    ('a' <= c && c <= 'z') || ('A' <= c && c <= 'Z')
}

fn is_word_char(c: char) -> (r: bool)
    ensures
        r == word_char(c),
{
    is_alphanumeric(c) || c == '_'
}

/// A cursor over the characters of a source text.
pub struct Lexer {
    chars: Vec<char>,
    pos: usize,
}

impl Lexer {
    /// The whole source text.
    pub closed spec fn source(&self) -> Seq<char> {
        self.chars@
    }

    /// The position of the cursor in the source text.
    pub closed spec fn position(&self) -> int {
        self.pos as int
    }

    pub closed spec fn wf(&self) -> bool {
        self.pos <= self.chars.len()
    }

    /// The cursor of a well-formed lexer lies within the source text.
    pub proof fn lemma_position_in_source(&self)
        requires
            self.wf(),
        ensures
            0 <= self.position() <= self.source().len(),
    {
    }

    pub fn new(input: &str) -> (r: Self)
        ensures
            r.wf(),
            r.source() == input@,
            r.position() == 0,
    {
        let n = input.unicode_len();
        let mut chars: Vec<char> = Vec::new();
        let mut i: usize = 0;
        while i < n
            invariant
                n == input@.len(),
                i <= n,
                chars@ == input@.take(i as int),
            decreases n - i,
        {
            chars.push(input.get_char(i));
            i += 1;
            assert(chars@ =~= input@.take(i as int));
        }
        assert(chars@ =~= input@);
        Lexer { chars, pos: 0 }
    }

    /// Moves the cursor one character on, unless the input is exhausted.
    pub fn advance(&mut self)
        requires
            old(self).wf(),
        ensures
            final(self).wf(),
            final(self).source() == old(self).source(),
            final(self).position() == if old(self).position() < old(self).source().len() {
                old(self).position() + 1
            } else {
                old(self).position()
            },
    {
        if self.pos < self.chars.len() {
            self.pos += 1;
        }
    }

    /// Reads the next token; after the end of the input this is `Eof`, again
    /// and again.
    pub fn get_next_token(&mut self) -> (r: Result<Token, SyntaxError>)
        requires
            old(self).wf(),
        ensures
            final(self).wf(),
            final(self).source() == old(self).source(),
            lex(old(self).source(), old(self).position()) == (
                token_result(r),
                final(self).position(),
            ),
    {
        while self.pos < self.chars.len()
            invariant
                self.wf(),
                self.source() == old(self).source(),
                old(self).position() <= self.position(),
                lex(self.source(), self.position()) == lex(
                    old(self).source(),
                    old(self).position(),
                ),
            decreases self.chars.len() - self.pos,
        {
            let c = self.chars[self.pos];
            if is_blank(c) {
                self.advance();
            } else if c == '=' {
                self.advance();
                return Ok(Token::Equals);
            } else if c == '(' {
                self.advance();
                return Ok(Token::LParen);
            } else if c == ')' {
                self.advance();
                return Ok(Token::RParen);
            } else if c == ',' {
                self.advance();
                return Ok(Token::Comma);
            } else if is_number_char(c) {
                return self.number();
            } else if c == '"' {
                return Ok(self.string());
            } else if is_letter(c) {
                return Ok(self.identifier());
            } else {
                self.advance();
            }
        }
        Ok(Token::Eof)
    }

    /// Reads a run of digits and dots as a number.
    fn number(&mut self) -> (r: Result<Token, SyntaxError>)
        requires
            old(self).wf(),
            old(self).position() < old(self).source().len(),
        ensures
            final(self).wf(),
            final(self).source() == old(self).source(),
            lex_number(old(self).source(), old(self).position()) == (
                token_result(r),
                final(self).position(),
            ),
    {
        let ghost s = self.chars@;
        let start = self.pos;
        let mut text = String::new();
        let mut dots: usize = 0;
        while self.pos < self.chars.len() && is_number_char(self.chars[self.pos])
            invariant
                self.wf(),
                self.chars@ == s,
                start <= self.pos,
                number_end(s, start as int) == number_end(s, self.pos as int),
                text@ == s.subrange(start as int, self.pos as int),
                dots as nat == dot_count(text@),
                dots <= self.pos - start,
            decreases self.chars.len() - self.pos,
        {
            let c = self.chars[self.pos];
            let ghost before = text@;
            text.push(c);
            assert(text@.drop_last() =~= before);
            if c == '.' {
                dots += 1;
            }
            self.advance();
            assert(text@ =~= s.subrange(start as int, self.pos as int));
        }
        if dots <= 1 && dots < self.pos - start {
            Ok(Token::Number(text))
        } else {
            Err(SyntaxError::MalformedNumber)
        }
    }

    /// Reads a string literal; an unterminated one ends with the input.
    fn string(&mut self) -> (r: Token)
        requires
            old(self).wf(),
            old(self).position() < old(self).source().len(),
        ensures
            final(self).wf(),
            final(self).source() == old(self).source(),
            lex_string(old(self).source(), old(self).position()) == (
                Ok::<Tok, SyntaxError>(r@),
                final(self).position(),
            ),
    {
        let ghost s = self.chars@;
        let start = self.pos;
        self.advance();
        let mut text = String::new();
        while self.pos < self.chars.len() && self.chars[self.pos] != '"'
            invariant
                self.wf(),
                self.chars@ == s,
                start + 1 <= self.pos,
                quote_end(s, start + 1) == quote_end(s, self.pos as int),
                text@ == s.subrange(start + 1, self.pos as int),
            decreases self.chars.len() - self.pos,
        {
            let c = self.chars[self.pos];
            text.push(c);
            self.advance();
            assert(text@ =~= s.subrange(start + 1, self.pos as int));
        }
        if self.pos < self.chars.len() {
            self.advance();
        }
        Token::StringLiteral(text)
    }

    /// Reads a word: the keyword `show`, or an identifier.
    fn identifier(&mut self) -> (r: Token)
        requires
            old(self).wf(),
            old(self).position() < old(self).source().len(),
        ensures
            final(self).wf(),
            final(self).source() == old(self).source(),
            lex_word(old(self).source(), old(self).position()) == (
                Ok::<Tok, SyntaxError>(r@),
                final(self).position(),
            ),
    {
        let ghost s = self.chars@;
        let start = self.pos;
        let mut text = String::new();
        text.push(self.chars[self.pos]);
        self.advance();
        assert(text@ =~= s.subrange(start as int, self.pos as int));
        while self.pos < self.chars.len() && is_word_char(self.chars[self.pos])
            invariant
                self.wf(),
                self.chars@ == s,
                start < self.pos,
                word_end(s, start + 1) == word_end(s, self.pos as int),
                text@ == s.subrange(start as int, self.pos as int),
            decreases self.chars.len() - self.pos,
        {
            let c = self.chars[self.pos];
            text.push(c);
            self.advance();
            assert(text@ =~= s.subrange(start as int, self.pos as int));
        }
        if self.pos - start == 4 && self.chars[start] == 's' && self.chars[start + 1] == 'h'
            && self.chars[start + 2] == 'o' && self.chars[start + 3] == 'w' {
            assert(text@ =~= keyword_show());
            Token::Show
        } else {
            Token::Identifier(text)
        }
    }
}

} // verus!
