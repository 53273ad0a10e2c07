use arith::{caret_line, lexer, Error, Value, InterpreterError, InterpreterErrorKind, LexerError, Loc, ParserError, Token, TokenKind};

#[test]
fn loc_renders_as_range() {
    assert_eq!(Loc(3, 14).render(), "3-14");
    assert_eq!(Loc(0, 0).render(), "0-0");
}

#[test]
fn token_kinds_render_as_source() {
    assert_eq!(TokenKind::Number(1234567890).render(), "1234567890");
    assert_eq!(TokenKind::Number(0).render(), "0");
    assert_eq!(TokenKind::Bind.render(), ":=");
    assert_eq!(TokenKind::Lparen.render(), "(");
    assert_eq!(TokenKind::Var("hoge".to_string()).render(), "hoge");
}

#[test]
fn lexer_error_message() {
    let e = LexerError::invalid_char('&', Loc(2, 3));
    assert_eq!(e.message(), "2-3: invalid char '&'");
}

#[test]
fn parser_error_messages() {
    let tok = Token::number(12, Loc(4, 6));
    assert_eq!(ParserError::UnexpectedToken(tok.clone()).message(), "4-6: 12 is not expected");
    assert_eq!(
        ParserError::NotExpression(Token::rparen(Loc(1, 2))).message(),
        "1-2: ')' is not a start of expression"
    );
    assert_eq!(ParserError::NotOperator(tok.clone()).message(), "4-6: '12' is not an operator");
    assert_eq!(
        ParserError::UnclosedOpenParen(Token::lparen(Loc(0, 1))).message(),
        "0-1: '(' is not closed"
    );
    assert_eq!(
        ParserError::RedundantExpression(tok).message(),
        "4-6: expression after '12' is redundant"
    );
    assert_eq!(ParserError::Eof.message(), "End of file");
}

#[test]
fn interpreter_error_messages() {
    let e = InterpreterError::new(InterpreterErrorKind::DivisionByZero, Loc(0, 5));
    assert_eq!(e.message(), "division by zero");
    assert_eq!(
        e.description(),
        "the right hand expression of the division evaluates to zero"
    );
    let e = InterpreterError::new(InterpreterErrorKind::UnboundVariable("x".to_string()), Loc(0, 1));
    assert_eq!(e.message(), "variable x is not bound");
    assert_eq!(e.description(), "variable is not bound");
}

#[test]
fn caret_line_marks_span() {
    assert_eq!(caret_line(Loc(2, 5)), "  ^^^");
    assert_eq!(caret_line(Loc(0, 1)), "^");
    assert_eq!(caret_line(Loc(3, 3)), "   ");
}

#[test]
fn diagnostic_of_lexer_error() {
    let input = "1 & 2";
    let e = Error::from(lexer(input).unwrap_err());
    assert_eq!(
        e.diagnostic(input),
        vec![input.to_string(), "  ^".to_string(), "2-3: invalid char '&'".to_string()]
    );
}

#[test]
fn diagnostic_of_redundant_expression_runs_to_end() {
    let input = "1 2 3";
    let e = Error::Parser(ParserError::RedundantExpression(Token::number(2, Loc(2, 3))));
    assert_eq!(e.diagnostic_loc(input), Loc(2, 5));
    assert_eq!(e.diagnostic(input)[1], "  ^^^");
}

#[test]
fn diagnostic_of_end_of_input_points_past_end() {
    let input = "1 +";
    let e = Error::Parser(ParserError::Eof);
    assert_eq!(e.diagnostic_loc(input), Loc(3, 4));
    assert_eq!(e.diagnostic(input), vec![input.to_string(), "   ^".to_string(), "End of file".to_string()]);
}

#[test]
fn diagnostic_of_interpreter_error() {
    let input = "4 / 0";
    let e = Error::from(InterpreterError::new(InterpreterErrorKind::DivisionByZero, Loc(0, 5)));
    assert_eq!(
        e.diagnostic(input),
        vec![input.to_string(), "^^^^^".to_string(), "division by zero".to_string()]
    );
}

#[test]
fn trace_lists_causes() {
    let e = Error::from(ParserError::Eof);
    assert_eq!(e.message(), "parser error");
    assert_eq!(e.trace(), vec!["parser error".to_string(), "caused by End of file".to_string()]);
    let e = Error::from(LexerError::invalid_char('?', Loc(0, 1)));
    assert_eq!(e.trace(), vec!["lexer error".to_string(), "caused by 0-1: invalid char '?'".to_string()]);
}

#[test]
fn values_render_in_decimal() {
    assert_eq!(Value::Int(42).render(), "42");
    assert_eq!(Value::Int(-7).render(), "-7");
    assert_eq!(Value::Int(i64::MIN).render(), "-9223372036854775808");
    assert_eq!(Value::Void.render(), "");
}
