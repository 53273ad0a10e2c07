use arith::{lexer, Loc, Token};
use arith::{LexerError, LexerErrorKind};

#[test]
fn test_lexer() {
    assert_eq!(
        lexer("12 + (3 - 123) * 3 / 4"),
        Ok(vec![
            Token::number(12, Loc(0, 2)),
            Token::plus(Loc(3, 4)),
            Token::lparen(Loc(5, 6)),
            Token::number(3, Loc(6, 7)),
            Token::minus(Loc(8, 9)),
            Token::number(123, Loc(10, 13)),
            Token::rparen(Loc(13, 14)),
            Token::asterisk(Loc(15, 16)),
            Token::number(3, Loc(17, 18)),
            Token::slash(Loc(19, 20)),
            Token::number(4, Loc(21, 22)),
        ])
    )
}

#[test]
fn test_bind_lexer() {
    assert_eq!(
        lexer("hoge := 42"),
        Ok(vec![
            Token::var("hoge", Loc(0, 4)),
            Token::bind(Loc(5, 7)),
            Token::number(42, Loc(8, 10)),
        ])
    )
}

#[test]
fn lexer_rejects_unknown_character() {
    assert_eq!(
        lexer("1 & 2"),
        Err(LexerError::invalid_char('&', Loc(2, 3)))
    );
    let e = lexer("1 & 2").unwrap_err();
    assert_eq!(e.value, LexerErrorKind::InvalidChar('&'));
    assert_eq!(e.loc, Loc(2, 3));
}

#[test]
fn lexer_stops_at_first_error() {
    assert_eq!(lexer("1 ? $"), Err(LexerError::invalid_char('?', Loc(2, 3))));
    assert_eq!(lexer("ab=1"), Err(LexerError::invalid_char('=', Loc(2, 3))));
}

#[test]
fn lexer_reports_non_ascii_character() {
    assert_eq!(lexer("1 + é"), Err(LexerError::invalid_char('é', Loc(4, 5))));
}

#[test]
fn lexer_twice_gives_same_tokens() {
    let input = "x := (12 + y) * -3";
    assert_eq!(lexer(input), lexer(input));
    let bad = "1 + #";
    assert_eq!(lexer(bad), lexer(bad));
}

#[test]
fn lexer_on_empty_and_blank_input() {
    assert_eq!(lexer(""), Ok(vec![]));
    assert_eq!(lexer(" \t\n "), Ok(vec![]));
}

#[test]
fn lexer_takes_longest_runs() {
    assert_eq!(
        lexer("abc12de"),
        Ok(vec![
            Token::var("abc", Loc(0, 3)),
            Token::number(12, Loc(3, 5)),
            Token::var("de", Loc(5, 7)),
        ])
    );
    assert_eq!(
        lexer("007"),
        Ok(vec![Token::number(7, Loc(0, 3))])
    );
}

#[test]
fn lexer_reads_largest_literal() {
    assert_eq!(
        lexer("18446744073709551615"),
        Ok(vec![Token::number(u64::MAX, Loc(0, 20))])
    );
}

#[test]
fn lexer_bind_run_is_greedy() {
    assert_eq!(lexer("::=="), Ok(vec![Token::bind(Loc(0, 4))]));
    assert_eq!(
        lexer("x : 1"),
        Ok(vec![
            Token::var("x", Loc(0, 1)),
            Token::bind(Loc(2, 3)),
            Token::number(1, Loc(4, 5)),
        ])
    );
}
