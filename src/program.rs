use vstd::prelude::*;
use crate::interpreter::{render_line, Interpreter};
use crate::lexer::{lemma_lex_bounds, lemma_lex_errors, Lexer, SyntaxError, Tok};
use crate::parser::{
    leaf_of, measure, next_token, parse_args, parse_show, parse_statement, skip_comma, step, Leaf,
    Parser,
};

verus! {

/// Reading arguments successfully never raises the parser's measure, and
/// stops at `)` or the end.
pub proof fn lemma_args_progress(s: Seq<char>, look: Tok, pos: int, acc: Seq<Leaf>)
    requires
        parse_args(s, look, pos, acc).0 is Ok,
    ensures
        ({
            let (_, t, p) = parse_args(s, look, pos, acc);
            &&& 0 <= p <= s.len()
            &&& measure(s, t, p) <= measure(s, look, pos)
            &&& t is RParen || t is Eof
        }),
    decreases measure(s, look, pos),
{
    if 0 <= pos <= s.len() && !(look is RParen || look is Eof) {
        lemma_lex_bounds(s, pos);
        let (r1, t1, p1) = if look is Comma {
            (Ok::<(), SyntaxError>(()), look, pos)
        } else {
            step(s, look, pos)
        };
        lemma_lex_bounds(s, p1);
        let acc2 = match leaf_of(look) {
            Some(l) => acc.push(l),
            None => acc,
        };
        let (_, t2, p2) = skip_comma(s, t1, p1);
        lemma_args_progress(s, t2, p2, acc2);
    }
}

/// A statement read successfully consumes input: the parser's measure goes
/// down.
pub proof fn lemma_show_progress(s: Seq<char>, pos: int)
    requires
        0 <= pos <= s.len(),
        parse_show(s, pos).0 is Ok,
    ensures
        ({
            let (_, t, p) = parse_show(s, pos);
            &&& 0 <= p <= s.len()
            &&& measure(s, t, p) < measure(s, Tok::Show, pos)
        }),
{
    lemma_lex_bounds(s, pos);
    let (_, t1, p1) = step(s, Tok::Show, pos);
    lemma_lex_bounds(s, p1);
    let (_, t2, p2) = step(s, t1, p1);
    lemma_args_progress(s, t2, p2, seq![]);
    let (_, t3, p3) = parse_args(s, t2, p2, seq![]);
    lemma_lex_bounds(s, p3);
}

/// Reading arguments within the text never reports an unterminated statement:
/// that is for the closing parenthesis to tell.
proof fn lemma_args_not_unterminated(s: Seq<char>, look: Tok, pos: int, acc: Seq<Leaf>)
    requires
        0 <= pos <= s.len(),
    ensures
        parse_args(s, look, pos, acc).0 != Err::<Seq<Leaf>, SyntaxError>(SyntaxError::Unterminated),
    decreases measure(s, look, pos),
{
    lemma_lex_errors(s, pos);
    if !(look is RParen || look is Eof) {
        lemma_lex_bounds(s, pos);
        let (r1, t1, p1) = if look is Comma {
            (Ok::<(), SyntaxError>(()), look, pos)
        } else {
            step(s, look, pos)
        };
        lemma_lex_bounds(s, p1);
        lemma_lex_errors(s, p1);
        let acc2 = match leaf_of(look) {
            Some(l) => acc.push(l),
            None => acc,
        };
        let (_, t2, p2) = skip_comma(s, t1, p1);
        lemma_args_not_unterminated(s, t2, p2, acc2);
    }
}

/// After a statement that the input ends inside, the parser stands at the
/// end of the input: reading on gives no further statement.
pub proof fn lemma_unterminated_then_end(s: Seq<char>, look: Tok, pos: int)
    requires
        0 <= pos <= s.len(),
        parse_statement(s, look, pos).0 == Err::<Option<Seq<Leaf>>, SyntaxError>(
            SyntaxError::Unterminated,
        ),
    ensures
        parse_statement(s, look, pos).1 is Eof,
        ({
            let (_, t, p) = parse_statement(s, look, pos);
            parse_statement(s, t, p).0 == Ok::<Option<Seq<Leaf>>, SyntaxError>(None)
        }),
{
    lemma_lex_bounds(s, pos);
    lemma_lex_errors(s, pos);
    let (_, t1, p1) = step(s, Tok::Show, pos);
    lemma_lex_bounds(s, p1);
    lemma_lex_errors(s, p1);
    let (_, t2, p2) = step(s, t1, p1);
    lemma_args_not_unterminated(s, t2, p2, seq![]);
    let (_, t3, p3) = parse_args(s, t2, p2, seq![]);
    if 0 <= p3 <= s.len() {
        lemma_lex_errors(s, p3);
    }
}

/// The statements read from lookahead `look` at `pos` on, up to the end of
/// the input or the first error, and that error.
pub open spec fn statements_from(s: Seq<char>, look: Tok, pos: int) -> (
    Seq<Seq<Leaf>>,
    Option<SyntaxError>,
)
    decreases measure(s, look, pos),
{
    if pos < 0 || pos > s.len() {
        (seq![], Some(SyntaxError::Unterminated))
    } else {
        let (r, t, p) = parse_statement(s, look, pos);
        match r {
            Ok(None) => (seq![], None),
            Err(e) => (seq![], Some(e)),
            Ok(Some(args)) => {
                proof {
                    lemma_show_progress(s, pos);
                }
                let rest = statements_from(s, t, p);
                (seq![args] + rest.0, rest.1)
            },
        }
    }
}

/// The lines written from lookahead `look` at `pos` on, and the error that
/// stopped the run, if one did.
pub open spec fn run_from(s: Seq<char>, look: Tok, pos: int) -> (Seq<Seq<char>>, Option<SyntaxError>)
    decreases measure(s, look, pos),
{
    if pos < 0 || pos > s.len() {
        (seq![], Some(SyntaxError::Unterminated))
    } else {
        let (r, t, p) = parse_statement(s, look, pos);
        match r {
            Ok(None) => (seq![], None),
            Err(e) => (seq![], Some(e)),
            Ok(Some(args)) => {
                proof {
                    lemma_show_progress(s, pos);
                }
                let rest = run_from(s, t, p);
                (seq![render_line(args)] + rest.0, rest.1)
            },
        }
    }
}

/// The statements of a program, up to its end or its first error.
pub open spec fn statements(s: Seq<char>) -> (Seq<Seq<Leaf>>, Option<SyntaxError>) {
    match next_token(s, 0) {
        Err(e) => (seq![], Some(e)),
        Ok((t, p)) => statements_from(s, t, p),
    }
}

/// What running a program writes, line by line, and the error that stopped
/// it, if one did.
pub open spec fn run_spec(s: Seq<char>) -> (Seq<Seq<char>>, Option<SyntaxError>) {
    match next_token(s, 0) {
        Err(e) => (seq![], Some(e)),
        Ok((t, p)) => run_from(s, t, p),
    }
}

pub open spec fn lines_view(v: Seq<String>) -> Seq<Seq<char>> {
    v.map_values(|l: String| l@)
}

/// Runs a program: each statement is parsed and at once executed, until the
/// input ends or a syntax error stops the run. Gives the lines written, in
/// order, and that error.
pub fn run(source: &str) -> (r: (Vec<String>, Option<SyntaxError>))
    ensures
        lines_view(r.0@) == run_spec(source@).0,
        r.1 == run_spec(source@).1,
{
    let ghost s = source@;
    let lexer = Lexer::new(source);
    let mut lines: Vec<String> = Vec::new();
    let mut parser = match Parser::new(lexer) {
        Ok(p) => p,
        Err(e) => {
            assert(lines_view(lines@) =~= seq![]);
            return (lines, Some(e));
        },
    };
    proof {
        lemma_lex_bounds(s, 0);
    }
    assert(lines_view(lines@) =~= seq![]);
    loop
        invariant
            parser.wf(),
            parser.source() == s,
            s == source@,
            0 <= parser.position() <= s.len(),
            run_spec(s).0 == lines_view(lines@) + run_from(s, parser.lookahead(), parser.position()).0,
            run_spec(s).1 == run_from(s, parser.lookahead(), parser.position()).1,
        decreases measure(s, parser.lookahead(), parser.position()),
    {
        let ghost look = parser.lookahead();
        let ghost pos = parser.position();
        match parser.parse() {
            Ok(None) => {
                assert(run_from(s, look, pos) == (Seq::<Seq<char>>::empty(), None::<SyntaxError>));
                assert(lines_view(lines@) + Seq::<Seq<char>>::empty() =~= lines_view(lines@));
                return (lines, None);
            },
            Err(e) => {
                assert(run_from(s, look, pos) == (Seq::<Seq<char>>::empty(), Some(e)));
                assert(lines_view(lines@) + Seq::<Seq<char>>::empty() =~= lines_view(lines@));
                return (lines, Some(e));
            },
            Ok(Some(st)) => {
                proof {
                    lemma_show_progress(s, pos);
                }
                let interpreter = Interpreter::new();
                let line = interpreter.interpret(st);
                let ghost before = lines_view(lines@);
                lines.push(line);
                assert(lines_view(lines@) =~= before.push(line@));
                assert(before + run_from(s, look, pos).0 =~= lines_view(lines@) + run_from(
                    s,
                    parser.lookahead(),
                    parser.position(),
                ).0);
            },
        }
    }
}

proof fn lemma_lines_of_statements(s: Seq<char>, look: Tok, pos: int)
    ensures
        run_from(s, look, pos).0 == statements_from(s, look, pos).0.map_values(
            |a: Seq<Leaf>| render_line(a),
        ),
        run_from(s, look, pos).1 == statements_from(s, look, pos).1,
    decreases measure(s, look, pos),
{
    if 0 <= pos <= s.len() {
        let (r, t, p) = parse_statement(s, look, pos);
        match r {
            Ok(Some(args)) => {
                lemma_show_progress(s, pos);
                lemma_lines_of_statements(s, t, p);
                assert(run_from(s, look, pos).0 =~= statements_from(s, look, pos).0.map_values(
                    |a: Seq<Leaf>| render_line(a),
                ));
            },
            _ => {
                assert(run_from(s, look, pos).0 =~= statements_from(s, look, pos).0.map_values(
                    |a: Seq<Leaf>| render_line(a),
                ));
            },
        }
    } else {
        assert(run_from(s, look, pos).0 =~= statements_from(s, look, pos).0.map_values(
            |a: Seq<Leaf>| render_line(a),
        ));
    }
}

/// A run writes exactly one line for each `show` statement read, in source
/// order: the line of the i-th statement is its arguments' values joined by
/// spaces. In particular a well-formed program, one that ends without error,
/// writes as many lines as it has statements.
pub proof fn lemma_one_line_per_statement(s: Seq<char>)
    ensures
        run_spec(s).0.len() == statements(s).0.len(),
        forall|i: int|
            0 <= i < run_spec(s).0.len() ==> run_spec(s).0[i] == render_line(
                #[trigger] statements(s).0[i],
            ),
        run_spec(s).1 == statements(s).1,
{
    match next_token(s, 0) {
        Err(_) => {},
        Ok((t, p)) => {
            lemma_lines_of_statements(s, t, p);
        },
    }
}

/// The output of a run is a function of the source text alone: running the
/// same text again writes the same lines and stops with the same error.
pub proof fn lemma_run_repeatable(a: Seq<char>, b: Seq<char>)
    requires
        a == b,
    ensures
        run_spec(a) == run_spec(b),
{
}

} // verus!
