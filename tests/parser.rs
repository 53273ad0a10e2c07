use arith::{lexer, parser, Ast, BinOp, Loc, ParserError, Token, UniOp};

fn parse_text(s: &str) -> Result<Ast, ParserError> {
    parser(lexer(s).unwrap())
}

#[test]
fn test_binop_parser() {
    // "12 + (3 - 123) * 3 / 4",
    let ast = parser(vec![
        Token::number(12, Loc(0, 2)),
        Token::plus(Loc(3, 4)),
        Token::lparen(Loc(5, 6)),
        Token::number(3, Loc(6, 7)),
        Token::minus(Loc(8, 9)),
        Token::number(123, Loc(10, 13)),
        Token::rparen(Loc(13, 14)),
        Token::asterisk(Loc(15, 16)),
        Token::number(3, Loc(17, 18)),
        Token::slash(Loc(19, 20)),
        Token::number(4, Loc(21, 22)),
    ]);

    assert_eq!(
        ast,
        Ok(Ast::binop(
            BinOp::add(Loc(3, 4)),
            Ast::num(12, Loc(0, 2)),
            Ast::binop(
                BinOp::div(Loc(19, 20)),
                Ast::binop(
                    BinOp::mul(Loc(15, 16)),
                    Ast::binop(
                        BinOp::sub(Loc(8, 9)),
                        Ast::num(3, Loc(6, 7)),
                        Ast::num(123, Loc(10, 13)),
                        Loc(6, 13)
                    ),
                    Ast::num(3, Loc(17, 18)),
                    Loc(6, 18)
                ),
                Ast::num(4, Loc(21, 22)),
                Loc(6, 22)
            ),
            Loc(0, 22)
        ))
    );
}

#[test]
fn test_uniop_parser() {
    // "-2+(+3)"
    let ast = parser(vec![
        Token::minus(Loc(0, 1)),
        Token::number(2, Loc(1, 2)),
        Token::plus(Loc(2, 3)),
        Token::lparen(Loc(3, 4)),
        Token::plus(Loc(4, 5)),
        Token::number(3, Loc(5, 6)),
        Token::rparen(Loc(6, 7)),
    ]);

    assert_eq!(
        ast,
        Ok(Ast::binop(
            BinOp::add(Loc(2, 3)),
            Ast::uniop(UniOp::minus(Loc(0, 1)), Ast::num(2, Loc(1, 2)), Loc(1, 2)),
            Ast::uniop(UniOp::plus(Loc(4, 5)), Ast::num(3, Loc(5, 6)), Loc(5, 6)),
            Loc(1, 6)
        ))
    );
}

#[test]
fn test_bind_parser() {
    // "hoge := 40 + 2"
    let ast = parser(vec![
        Token::var("hoge", Loc(0, 4)),
        Token::bind(Loc(5, 7)),
        Token::number(40, Loc(8, 10)),
        Token::plus(Loc(11, 12)),
        Token::number(2, Loc(13, 14)),
    ]);

    assert_eq!(
        ast,
        Ok(Ast::bind(
            "hoge".to_string(),
            Box::new(Ast::binop(
                BinOp::add(Loc(11, 12)),
                Ast::num(40, Loc(8, 10)),
                Ast::num(2, Loc(13, 14)),
                Loc(8, 14)
            )),
            Loc(0, 14)
        ))
    );
}

#[test]
fn test_bin0d_parser() {
    // "x + x"
    let ast = parser(vec![
        Token::var("x", Loc(0, 1)),
        Token::plus(Loc(2, 3)),
        Token::var("x", Loc(4, 5)),
    ]);

    assert_eq!(
        ast,
        Ok(Ast::binop(
            BinOp::add(Loc(2, 3)),
            Ast::var("x".to_string(), Loc(0, 1)),
            Ast::var("x".to_string(), Loc(4, 5)),
            Loc(0, 5)
        ))
    );
}

#[test]
fn parser_groups_subtraction_to_the_left() {
    assert_eq!(
        parse_text("1 - 2 - 3"),
        Ok(Ast::binop(
            BinOp::sub(Loc(6, 7)),
            Ast::binop(
                BinOp::sub(Loc(2, 3)),
                Ast::num(1, Loc(0, 1)),
                Ast::num(2, Loc(4, 5)),
                Loc(0, 5)
            ),
            Ast::num(3, Loc(8, 9)),
            Loc(0, 9)
        ))
    );
}

#[test]
fn parser_gives_products_precedence() {
    assert_eq!(
        parse_text("1 + 2 * 3"),
        Ok(Ast::binop(
            BinOp::add(Loc(2, 3)),
            Ast::num(1, Loc(0, 1)),
            Ast::binop(
                BinOp::mul(Loc(6, 7)),
                Ast::num(2, Loc(4, 5)),
                Ast::num(3, Loc(8, 9)),
                Loc(4, 9)
            ),
            Loc(0, 9)
        ))
    );
}

#[test]
fn parser_reports_unclosed_paren() {
    assert_eq!(
        parse_text("(1 + 2"),
        Err(ParserError::UnclosedOpenParen(Token::lparen(Loc(0, 1))))
    );
}

#[test]
fn parser_reports_wrong_token_at_close() {
    assert_eq!(
        parse_text("(1 2"),
        Err(ParserError::RedundantExpression(Token::number(2, Loc(3, 4))))
    );
}

#[test]
fn parser_reports_leftover_tokens() {
    assert_eq!(
        parse_text("1 2"),
        Err(ParserError::RedundantExpression(Token::number(2, Loc(2, 3))))
    );
    assert_eq!(
        parse_text("1 + 2)"),
        Err(ParserError::RedundantExpression(Token::rparen(Loc(5, 6))))
    );
}

#[test]
fn parser_reports_end_of_input() {
    assert_eq!(parse_text(""), Err(ParserError::Eof));
    assert_eq!(parse_text("1 +"), Err(ParserError::Eof));
    assert_eq!(parse_text("x :="), Err(ParserError::Eof));
}

#[test]
fn parser_reports_token_that_starts_no_expression() {
    assert_eq!(
        parse_text("()"),
        Err(ParserError::NotExpression(Token::rparen(Loc(1, 2))))
    );
    assert_eq!(
        parse_text("1 * := 2"),
        Err(ParserError::NotExpression(Token::bind(Loc(4, 6))))
    );
}

#[test]
fn parser_takes_name_without_bind_as_expression() {
    assert_eq!(
        parse_text("x * 2"),
        Ok(Ast::binop(
            BinOp::mul(Loc(2, 3)),
            Ast::var("x".to_string(), Loc(0, 1)),
            Ast::num(2, Loc(4, 5)),
            Loc(0, 5)
        ))
    );
}

#[test]
fn parser_span_covers_whole_input() {
    let ast = parse_text("a := 12 * b - 3 / c").unwrap();
    assert_eq!(ast.loc, Loc(0, 19));
    let ast = parse_text("7 + x * 3   ").unwrap();
    assert_eq!(ast.loc, Loc(0, 9));
}

#[test]
fn ast_from_str_chains_both_stages() {
    let ast: Ast = "2 * 3".parse().unwrap();
    assert_eq!(ast.loc, Loc(0, 5));
    let err = "2 & 3".parse::<Ast>().unwrap_err();
    assert!(matches!(err, arith::Error::Lexer(_)));
    let err = "2 +".parse::<Ast>().unwrap_err();
    assert_eq!(err, arith::Error::Parser(ParserError::Eof));
}

#[test]
fn parser_accepts_grammatical_statements() {
    for s in ["x := -(1 + 2) * y / +3 - 4", "((7))", "a - -b * (c)", "n := m", "-1 / (2 - 3) * +4 + 5"] {
        assert!(parse_text(s).is_ok(), "{}", s);
    }
}
