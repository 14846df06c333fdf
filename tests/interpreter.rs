use lumia::interpreter::{format_number, Interpreter};
use lumia::lexer::{Lexer, SyntaxError, Token};
use lumia::parser::{Expr, Parser, Statement};
use lumia::program::run;

fn lines(v: &[&str]) -> Vec<String> {
    v.iter().map(|s| s.to_string()).collect()
}

#[test]
fn show_mixed_arguments() {
    let (out, err) = run("show(\"hello\", 42, world)");
    assert_eq!(out, lines(&["hello 42 world"]));
    assert_eq!(err, None);
}

#[test]
fn show_without_arguments_writes_empty_line() {
    let (out, err) = run("show()");
    assert_eq!(out, lines(&[""]));
    assert_eq!(err, None);
}

#[test]
fn integral_numbers_have_no_fraction() {
    let (out, err) = run("show(1, 2, 3)");
    assert_eq!(out, lines(&["1 2 3"]));
    assert_eq!(err, None);
}

#[test]
fn unterminated_string_writes_nothing() {
    let (out, err) = run("show(\"abc");
    assert!(out.is_empty());
    assert_eq!(err, Some(SyntaxError::Unterminated));
}

#[test]
fn unterminated_string_collects_rest_of_input() {
    let mut lexer = Lexer::new("\"abc");
    assert_eq!(lexer.get_next_token(), Ok(Token::StringLiteral("abc".to_string())));
    assert_eq!(lexer.get_next_token(), Ok(Token::Eof));
}

#[test]
fn malformed_number_stops_the_run() {
    let (out, err) = run("show(1.2.3)\nshow(4)");
    assert!(out.is_empty());
    assert_eq!(err, Some(SyntaxError::MalformedNumber));
}

#[test]
fn malformed_number_keeps_earlier_lines_only() {
    let (out, err) = run("show(1)\nshow(1.2.3)\nshow(2)");
    assert_eq!(out, lines(&["1"]));
    assert_eq!(err, Some(SyntaxError::MalformedNumber));
}

#[test]
fn lone_dot_is_malformed() {
    let mut lexer = Lexer::new(".");
    assert_eq!(lexer.get_next_token(), Err(SyntaxError::MalformedNumber));
}

#[test]
fn rerun_gives_same_output() {
    let src = "show(a, 1.50)\nshow(\"x y\")\nshow()";
    let first = run(src);
    let second = run(src);
    assert_eq!(first, second);
    assert_eq!(first.0, lines(&["a 1.5", "x y", ""]));
}

#[test]
fn unknown_symbol_between_statements_is_skipped() {
    assert_eq!(run("show(a)#show(b)"), run("show(a)show(b)"));
    assert_eq!(run("show(a)#show(b)").0, lines(&["a", "b"]));
    assert_eq!(run("# show(c) #").0, lines(&["c"]));
}

#[test]
fn one_line_per_statement_in_order() {
    let (out, err) = run("show(1) show(2)\n\tshow(3)\r\n");
    assert_eq!(out, lines(&["1", "2", "3"]));
    assert_eq!(err, None);
}

#[test]
fn empty_program_writes_nothing() {
    assert_eq!(run(""), (Vec::new(), None));
    assert_eq!(run("  \n "), (Vec::new(), None));
}

#[test]
fn number_rendering() {
    let cases = [
        ("3.0", "3"),
        ("007", "7"),
        ("1.50", "1.5"),
        (".5", "0.5"),
        ("1.", "1"),
        ("0", "0"),
        ("0.000", "0"),
        ("12.340", "12.34"),
        ("100", "100"),
        ("0.05", "0.05"),
    ];
    for (text, shown) in cases {
        assert_eq!(format_number(&text.to_string()), shown.to_string());
    }
}

#[test]
fn commas_are_lenient() {
    assert_eq!(run("show(,1,)").0, lines(&["1"]));
    assert_eq!(run("show(1 2)").0, lines(&["1 2"]));
}

#[test]
fn unexpected_token_in_arguments() {
    let (out, err) = run("show(=)");
    assert!(out.is_empty());
    assert_eq!(err, Some(SyntaxError::UnexpectedToken));
    assert_eq!(run("show((1))").1, Some(SyntaxError::UnexpectedToken));
}

#[test]
fn statement_must_start_with_show() {
    assert_eq!(run("x"), (Vec::new(), Some(SyntaxError::UnexpectedToken)));
    assert_eq!(run("show 1").1, Some(SyntaxError::UnexpectedToken));
}

#[test]
fn missing_parentheses_are_unterminated() {
    assert_eq!(run("show").1, Some(SyntaxError::Unterminated));
    assert_eq!(run("show(1").1, Some(SyntaxError::Unterminated));
    assert_eq!(run("show(1) show(").0, lines(&["1"]));
}

#[test]
fn identifiers_take_letters_digits_underscores() {
    assert_eq!(run("show(a_1b, Zz9)").0, lines(&["a_1b Zz9"]));
    assert_eq!(run("show(caf\u{e9})").0, lines(&["caf\u{e9}"]));
}

#[test]
fn lexer_token_sequence() {
    let mut lexer = Lexer::new("show(a, \"b c\", 1.5) = x_2");
    let expected = vec![
        Token::Show,
        Token::LParen,
        Token::Identifier("a".to_string()),
        Token::Comma,
        Token::StringLiteral("b c".to_string()),
        Token::Comma,
        Token::Number("1.5".to_string()),
        Token::RParen,
        Token::Equals,
        Token::Identifier("x_2".to_string()),
        Token::Eof,
        Token::Eof,
    ];
    for t in expected {
        assert_eq!(lexer.get_next_token(), Ok(t));
    }
}

#[test]
fn keyword_needs_exact_spelling() {
    let mut lexer = Lexer::new("shows Show show");
    assert_eq!(lexer.get_next_token(), Ok(Token::Identifier("shows".to_string())));
    assert_eq!(lexer.get_next_token(), Ok(Token::Identifier("Show".to_string())));
    assert_eq!(lexer.get_next_token(), Ok(Token::Show));
}

#[test]
fn parser_builds_statement() {
    let mut parser = Parser::new(Lexer::new("show(1, x, \"s\")")).unwrap();
    let st = parser.parse().unwrap().unwrap();
    assert_eq!(
        st,
        Statement::Show(vec![
            Expr::Number("1".to_string()),
            Expr::Identifier("x".to_string()),
            Expr::StringLiteral("s".to_string()),
        ])
    );
    assert_eq!(parser.parse(), Ok(None));
}

#[test]
fn interpreter_joins_values() {
    let interpreter = Interpreter::new();
    let st = Statement::Show(vec![
        Expr::StringLiteral("hi".to_string()),
        Expr::Number("2.50".to_string()),
        Expr::Identifier("name".to_string()),
    ]);
    assert_eq!(interpreter.interpret(st), "hi 2.5 name".to_string());
}

#[test]
fn parse_after_unterminated_gives_end() {
    let mut parser = Parser::new(Lexer::new("show(\"abc")).unwrap();
    assert_eq!(parser.parse(), Err(SyntaxError::Unterminated));
    assert_eq!(parser.parse(), Ok(None));
    let mut parser = Parser::new(Lexer::new("show(1, x")).unwrap();
    assert_eq!(parser.parse(), Err(SyntaxError::Unterminated));
    assert_eq!(parser.parse(), Ok(None));
}

#[test]
fn failed_statement_stands_at_failing_token() {
    let mut parser = Parser::new(Lexer::new("show x")).unwrap();
    assert_eq!(parser.parse(), Err(SyntaxError::UnexpectedToken));
    assert_eq!(parser.parse(), Err(SyntaxError::UnexpectedToken));
    let mut parser = Parser::new(Lexer::new("x show(1)")).unwrap();
    assert_eq!(parser.parse(), Err(SyntaxError::UnexpectedToken));
    assert_eq!(parser.parse(), Err(SyntaxError::UnexpectedToken));
    let mut parser = Parser::new(Lexer::new("show(=) show(2)")).unwrap();
    assert_eq!(parser.parse(), Err(SyntaxError::UnexpectedToken));
    assert_eq!(parser.parse(), Err(SyntaxError::UnexpectedToken));
}

#[test]
fn end_of_input_is_not_consumed() {
    let mut parser = Parser::new(Lexer::new("  ")).unwrap();
    assert_eq!(parser.parse(), Ok(None));
    assert_eq!(parser.parse(), Ok(None));
}
