use vstd::prelude::*;
use crate::lexer::{lemma_lex_bounds, lex, Lexer, SyntaxError, Tok, Token};

verus! {

/// An argument of a `show` statement.
#[derive(Debug, Clone, PartialEq)]
pub enum Expr {
    StringLiteral(String),
    /// The literal text of a number.
    Number(String),
    Identifier(String),
}

/// The mathematical model of an argument.
pub enum Leaf {
    StringLiteral(Seq<char>),
    Number(Seq<char>),
    Identifier(Seq<char>),
}

impl View for Expr {
    type V = Leaf;

    open spec fn view(&self) -> Leaf {
        match self {
            Expr::StringLiteral(s) => Leaf::StringLiteral(s@),
            Expr::Number(s) => Leaf::Number(s@),
            Expr::Identifier(s) => Leaf::Identifier(s@),
        }
    }
}

/// A top-level statement; `show` is the only kind.
#[derive(Debug, Clone, PartialEq)]
pub enum Statement {
    Show(Vec<Expr>),
}

pub open spec fn leaves(v: Seq<Expr>) -> Seq<Leaf> {
    v.map_values(|e: Expr| e@)
}

impl View for Statement {
    /// The arguments of the statement, in order.
    type V = Seq<Leaf>;

    open spec fn view(&self) -> Seq<Leaf> {
        match self {
            Statement::Show(args) => leaves(args@),
        }
    }
}

/// The token after position `pos`, and the position after it.
pub open spec fn next_token(s: Seq<char>, pos: int) -> Result<(Tok, int), SyntaxError> {
    match lex(s, pos).0 {
        Ok(t) => Ok((t, lex(s, pos).1)),
        Err(e) => Err(e),
    }
}

/// What the parser's progress is measured by: the input left, and whether a
/// token other than the end is still to be consumed.
pub open spec fn measure(s: Seq<char>, look: Tok, pos: int) -> int {
    s.len() - pos + if look is Eof { 0int } else { 1int }
}

pub open spec fn leaf_of(t: Tok) -> Option<Leaf> {
    match t {
        Tok::StringLiteral(v) => Some(Leaf::StringLiteral(v)),
        Tok::Number(v) => Some(Leaf::Number(v)),
        Tok::Identifier(v) => Some(Leaf::Identifier(v)),
        _ => None,
    }
}

/// The error for a token that is not the one a statement needs.
pub open spec fn mismatch(t: Tok) -> SyntaxError {
    if t is Eof {
        SyntaxError::Unterminated
    } else {
        SyntaxError::UnexpectedToken
    }
}

/// One step of the parser from lookahead `look` ending at `pos`: the next
/// token becomes the lookahead. On a lexing error the lookahead stays, and
/// the position is past the text that failed.
pub open spec fn step(s: Seq<char>, look: Tok, pos: int) -> (Result<(), SyntaxError>, Tok, int) {
    match lex(s, pos).0 {
        Ok(t) => (Ok(()), t, lex(s, pos).1),
        Err(e) => (Err(e), look, lex(s, pos).1),
    }
}

/// Consumes a comma if one is the lookahead.
pub open spec fn skip_comma(s: Seq<char>, look: Tok, pos: int) -> (Result<(), SyntaxError>, Tok, int) {
    if look is Comma {
        step(s, look, pos)
    } else {
        (Ok(()), look, pos)
    }
}

/// The arguments of a `show` statement from lookahead `look` on, appended to
/// `acc`, with the lookahead and position where the parser stops: at the
/// closing token (`)` or the end) on success, at the failing token on error.
/// Commas are optional separators; any other token that is not an argument
/// is unexpected.
pub open spec fn parse_args(s: Seq<char>, look: Tok, pos: int, acc: Seq<Leaf>) -> (
    Result<Seq<Leaf>, SyntaxError>,
    Tok,
    int,
)
    decreases measure(s, look, pos),
{
    if pos < 0 || pos > s.len() {
        // a position outside the text, which the parser never reaches
        (Err(SyntaxError::Unterminated), look, pos)
    } else if look is RParen || look is Eof {
        (Ok(acc), look, pos)
    } else if leaf_of(look) is None && !(look is Comma) {
        (Err(SyntaxError::UnexpectedToken), look, pos)
    } else {
        let (r1, t1, p1) = if look is Comma {
            (Ok(()), look, pos)
        } else {
            step(s, look, pos)
        };
        let acc2 = match leaf_of(look) {
            Some(l) => acc.push(l),
            None => acc,
        };
        if r1 is Err {
            (Err(r1->Err_0), t1, p1)
        } else {
            let (r2, t2, p2) = skip_comma(s, t1, p1);
            if r2 is Err {
                (Err(r2->Err_0), t2, p2)
            } else {
                proof {
                    lemma_lex_bounds(s, pos);
                    if 0 <= p1 <= s.len() {
                        lemma_lex_bounds(s, p1);
                    }
                }
                parse_args(s, t2, p2, acc2)
            }
        }
    }
}

/// A `show` statement whose keyword ends at `pos`: its arguments, and the
/// lookahead and position after its closing parenthesis, or, on error, at
/// the token that failed.
pub open spec fn parse_show(s: Seq<char>, pos: int) -> (Result<Seq<Leaf>, SyntaxError>, Tok, int) {
    let (r1, t1, p1) = step(s, Tok::Show, pos);
    if r1 is Err {
        (Err(r1->Err_0), t1, p1)
    } else if !(t1 is LParen) {
        (Err(mismatch(t1)), t1, p1)
    } else {
        let (r2, t2, p2) = step(s, t1, p1);
        if r2 is Err {
            (Err(r2->Err_0), t2, p2)
        } else {
            finish_show(s, parse_args(s, t2, p2, seq![]))
        }
    }
}

/// Closes a `show` statement after its arguments: the lookahead must be `)`.
pub open spec fn finish_show(s: Seq<char>, args: (Result<Seq<Leaf>, SyntaxError>, Tok, int)) -> (
    Result<Seq<Leaf>, SyntaxError>,
    Tok,
    int,
) {
    let (r, t, p) = args;
    if r is Err {
        args
    } else if !(t is RParen) {
        (Err(mismatch(t)), t, p)
    } else {
        let (r4, t4, p4) = step(s, t, p);
        if r4 is Err {
            (Err(r4->Err_0), t4, p4)
        } else {
            (Ok(r->Ok_0), t4, p4)
        }
    }
}

/// The next statement (`Ok(None)` at the end of the input), and where the
/// parser then stands. A token that starts no statement is not consumed.
pub open spec fn parse_statement(s: Seq<char>, look: Tok, pos: int) -> (
    Result<Option<Seq<Leaf>>, SyntaxError>,
    Tok,
    int,
) {
    if look is Eof {
        (Ok(None), look, pos)
    } else if look is Show {
        let (r, t, p) = parse_show(s, pos);
        (
            match r {
                Ok(args) => Ok(Some(args)),
                Err(e) => Err(e),
            },
            t,
            p,
        )
    } else {
        (Err(SyntaxError::UnexpectedToken), look, pos)
    }
}

pub open spec fn kind(t: Tok) -> u8 {
    match t {
        Tok::Show => 0,
        Tok::Identifier(_) => 1,
        Tok::Number(_) => 2,
        Tok::StringLiteral(_) => 3,
        Tok::Equals => 4,
        Tok::LParen => 5,
        Tok::RParen => 6,
        Tok::Comma => 7,
        Tok::Eof => 8,
    }
}

fn kind_of(t: &Token) -> (r: u8)
    ensures
        r == kind(t@),
{
    match t {
        Token::Show => 0,
        Token::Identifier(_) => 1,
        Token::Number(_) => 2,
        Token::StringLiteral(_) => 3,
        Token::Equals => 4,
        Token::LParen => 5,
        Token::RParen => 6,
        Token::Comma => 7,
        Token::Eof => 8,
    }
}

/// A recursive-descent parser with one token of lookahead.
pub struct Parser {
    lexer: Lexer,
    current_token: Token,
}

impl Parser {
    pub closed spec fn source(&self) -> Seq<char> {
        self.lexer.source()
    }

    /// The position after the lookahead token.
    pub closed spec fn position(&self) -> int {
        self.lexer.position()
    }

    pub closed spec fn lookahead(&self) -> Tok {
        self.current_token@
    }

    pub closed spec fn wf(&self) -> bool {
        &&& self.lexer.wf()
        &&& 0 <= self.lexer.position() <= self.lexer.source().len()
    }

    /// Starts parsing where the lexer stands, reading the first token.
    pub fn new(lexer: Lexer) -> (r: Result<Parser, SyntaxError>)
        requires
            lexer.wf(),
        ensures
            match r {
                Ok(p) => p.wf() && p.source() == lexer.source() && next_token(
                    lexer.source(),
                    lexer.position(),
                ) == Ok::<(Tok, int), SyntaxError>((p.lookahead(), p.position())),
                Err(e) => next_token(lexer.source(), lexer.position()) == Err::<
                    (Tok, int),
                    SyntaxError,
                >(e),
            },
    {
        let mut lexer = lexer;
        proof {
            lexer.lemma_position_in_source();
            lemma_lex_bounds(lexer.source(), lexer.position());
        }
        match lexer.get_next_token() {
            Ok(t) => Ok(Parser { lexer, current_token: t }),
            Err(e) => Err(e),
        }
    }

    /// The position of a well-formed parser lies within the source text.
    pub proof fn lemma_position_in_source(&self)
        requires
            self.wf(),
        ensures
            0 <= self.position() <= self.source().len(),
    {
    }

    /// Reads the next token into the lookahead.
    pub fn advance(&mut self) -> (r: Result<(), SyntaxError>)
        requires
            old(self).wf(),
        ensures
            final(self).wf(),
            final(self).source() == old(self).source(),
            step(old(self).source(), old(self).lookahead(), old(self).position()) == (
                r,
                final(self).lookahead(),
                final(self).position(),
            ),
    {
        proof {
            lemma_lex_bounds(self.source(), self.position());
        }
        match self.lexer.get_next_token() {
            Ok(t) => {
                self.current_token = t;
                Ok(())
            },
            Err(e) => Err(e),
        }
    }

    /// Parses one argument if the lookahead is one, consuming it; otherwise
    /// consumes nothing and gives `None`.
    fn parse_expression(&mut self) -> (r: Result<Option<Expr>, SyntaxError>)
        requires
            old(self).wf(),
        ensures
            final(self).wf(),
            final(self).source() == old(self).source(),
            leaf_of(old(self).lookahead()) is None ==> r == Ok::<Option<Expr>, SyntaxError>(None)
                && final(self).lookahead() == old(self).lookahead() && final(self).position()
                == old(self).position(),
            leaf_of(old(self).lookahead()) is Some ==> step(
                old(self).source(),
                old(self).lookahead(),
                old(self).position(),
            ) == (
                match r {
                    Ok(_) => Ok::<(), SyntaxError>(()),
                    Err(e) => Err(e),
                },
                final(self).lookahead(),
                final(self).position(),
            ) && match r {
                Ok(Some(e)) => Some(e@) == leaf_of(old(self).lookahead()),
                Ok(None) => false,
                Err(_) => true,
            },
    {
        let node = match &self.current_token {
            Token::StringLiteral(v) => Expr::StringLiteral(v.clone()),
            Token::Number(v) => Expr::Number(v.clone()),
            Token::Identifier(v) => Expr::Identifier(v.clone()),
            _ => {
                return Ok(None);
            },
        };
        match self.advance() {
            Ok(_) => Ok(Some(node)),
            Err(e) => Err(e),
        }
    }

    /// Consumes the lookahead if it is of the same kind as `token`; otherwise
    /// leaves the parser as it was.
    fn expect(&mut self, token: Token) -> (r: Result<(), SyntaxError>)
        requires
            old(self).wf(),
        ensures
            final(self).wf(),
            final(self).source() == old(self).source(),
            kind(old(self).lookahead()) != kind(token@) ==> r == Err::<(), SyntaxError>(
                mismatch(old(self).lookahead()),
            ) && final(self).lookahead() == old(self).lookahead() && final(self).position()
                == old(self).position(),
            kind(old(self).lookahead()) == kind(token@) ==> step(
                old(self).source(),
                old(self).lookahead(),
                old(self).position(),
            ) == (r, final(self).lookahead(), final(self).position()),
    {
        if kind_of(&self.current_token) == kind_of(&token) {
            self.advance()
        } else if kind_of(&self.current_token) == 8 {
            Err(SyntaxError::Unterminated)
        } else {
            Err(SyntaxError::UnexpectedToken)
        }
    }

    fn at_close(&self) -> (r: bool)
        ensures
            r == (self.lookahead() is RParen || self.lookahead() is Eof),
    {
        match self.current_token {
            Token::RParen | Token::Eof => true,
            _ => false,
        }
    }

    /// Parses a `show` statement; the lookahead is its keyword. On error the
    /// parser stands at the token that failed.
    fn parse_show(&mut self) -> (r: Result<Statement, SyntaxError>)
        requires
            old(self).wf(),
            old(self).lookahead() is Show,
        ensures
            final(self).wf(),
            final(self).source() == old(self).source(),
            parse_show(old(self).source(), old(self).position()) == (
                match r {
                    Ok(st) => Ok::<Seq<Leaf>, SyntaxError>(st@),
                    Err(e) => Err(e),
                },
                final(self).lookahead(),
                final(self).position(),
            ),
    {
        let ghost s = self.source();
        if let Err(e) = self.advance() {
            return Err(e);
        }
        if let Err(e) = self.expect(Token::LParen) {
            return Err(e);
        }
        let ghost look0 = self.lookahead();
        let ghost pos0 = self.position();
        let mut args: Vec<Expr> = Vec::new();
        assert(leaves(args@) =~= seq![]);
        while !self.at_close()
            invariant
                self.wf(),
                self.source() == s,
                s == old(self).source(),
                parse_show(s, old(self).position()) == finish_show(
                    s,
                    parse_args(s, look0, pos0, seq![]),
                ),
                parse_args(s, self.lookahead(), self.position(), leaves(args@)) == parse_args(
                    s,
                    look0,
                    pos0,
                    seq![],
                ),
            decreases measure(s, self.lookahead(), self.position()),
        {
            let ghost acc1 = leaves(args@);
            proof {
                lemma_lex_bounds(s, self.position());
            }
            match self.parse_expression() {
                Err(e) => {
                    return Err(e);
                },
                Ok(Some(e)) => {
                    args.push(e);
                    assert(leaves(args@) =~= acc1.push(e@));
                },
                Ok(None) => {
                    if kind_of(&self.current_token) != 7 {
                        return Err(SyntaxError::UnexpectedToken);
                    }
                },
            }
            proof {
                lemma_lex_bounds(s, self.position());
            }
            if kind_of(&self.current_token) == 7 {
                if let Err(e) = self.advance() {
                    return Err(e);
                }
            }
        }
        if let Err(e) = self.expect(Token::RParen) {
            return Err(e);
        }
        Ok(Statement::Show(args))
    }

    /// Parses the next statement: `Ok(None)` at the end of the input, and an
    /// error where the input does not start a statement. The parser then
    /// stands after the statement, or, on error, at the token that failed.
    pub fn parse(&mut self) -> (r: Result<Option<Statement>, SyntaxError>)
        requires
            old(self).wf(),
        ensures
            final(self).wf(),
            final(self).source() == old(self).source(),
            parse_statement(old(self).source(), old(self).lookahead(), old(self).position()) == (
                match r {
                    Ok(Some(st)) => Ok::<Option<Seq<Leaf>>, SyntaxError>(Some(st@)),
                    Ok(None) => Ok(None),
                    Err(e) => Err(e),
                },
                final(self).lookahead(),
                final(self).position(),
            ),
    {
        match self.current_token {
            Token::Eof => Ok(None),
            Token::Show => match self.parse_show() {
                Ok(st) => Ok(Some(st)),
                Err(e) => Err(e),
            },
            _ => Err(SyntaxError::UnexpectedToken),
        }
    }
}

} // verus!
