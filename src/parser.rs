use vstd::prelude::*;
use itertools::MultiPeek;
use std::vec::IntoIter;
use crate::ast::{is_stmt, no_bind, Ast, AstKind, BinOp, BinOpKind, UniOp, UniOpKind};
use crate::loc::{loc_text, Loc};
use crate::text::push_char;
use vstd::string::StringExecFns;
use crate::lexer::{is_blank, lemma_lex_from_spans, lex, LexerError};
use crate::token::{lexeme_text, tokens_view, Lexeme, Token, TokenKind};

verus! {

/// Why the parser stopped, with the token it stopped at.
#[derive(Debug, PartialEq)]
pub enum ParserError {
    /// Tokens follow a complete statement, or a `(` is followed by something
    /// other than `)` after its expression.
    RedundantExpression(Token),
    /// A token of another kind was expected here.
    UnexpectedToken(Token),
    /// A `(` whose `)` never came.
    UnclosedOpenParen(Token),
    /// An operator was expected here.
    NotOperator(Token),
    /// The token cannot start an expression.
    NotExpression(Token),
    /// The tokens ran out where an expression was expected.
    Eof,
}

/// A message about `tok`: its span, then `before`, the token, and `after`.
pub open spec fn token_text(tok: Token, before: Seq<char>, after: Seq<char>) -> Seq<char> {
    loc_text(tok.loc) + before + lexeme_text(tok.value@) + after
}

/// The message of a parser error.
pub open spec fn parser_error_text(e: ParserError) -> Seq<char> {
    match e {
        ParserError::UnexpectedToken(tok) => token_text(tok, ": "@, " is not expected"@),
        ParserError::NotExpression(tok) => token_text(tok, ": '"@, "' is not a start of expression"@),
        ParserError::NotOperator(tok) => token_text(tok, ": '"@, "' is not an operator"@),
        ParserError::UnclosedOpenParen(tok) => token_text(tok, ": '"@, "' is not closed"@),
        ParserError::RedundantExpression(tok) => token_text(tok, ": expression after '"@, "' is redundant"@),
        ParserError::Eof => "End of file"@,
    }
}

fn token_message(tok: &Token, before: &str, after: &str) -> (r: String)
    ensures
        r@ == token_text(*tok, before@, after@),
{
    let mut out = tok.loc.render();
    out.append(before);
    let t = tok.value.render();
    out.append(t.as_str());
    out.append(after);
    out
}

impl ParserError {
    /// The message of the error: where, and which token.
    pub fn message(&self) -> (r: String)
        ensures
            r@ == parser_error_text(*self),
    {
        match self {
            ParserError::UnexpectedToken(tok) => token_message(tok, ": ", " is not expected"),
            ParserError::NotExpression(tok) => token_message(tok, ": '", "' is not a start of expression"),
            ParserError::NotOperator(tok) => token_message(tok, ": '", "' is not an operator"),
            ParserError::UnclosedOpenParen(tok) => token_message(tok, ": '", "' is not closed"),
            ParserError::RedundantExpression(tok) => token_message(tok, ": expression after '", "' is redundant"),
            ParserError::Eof => String::from_str("End of file"),
        }
    }
}

#[verifier::external_type_specification]
#[verifier::external_body]
#[verifier::reject_recursive_types(I)]
pub struct ExMultiPeek<I: Iterator>(MultiPeek<I>);

/// The tokens that the stream has not yet handed out by `next`.
pub uninterp spec fn pending(ts: MultiPeek<IntoIter<Token>>) -> Seq<Token>;

/// How many pending tokens `peek` has shown since the last `next` or reset.
pub uninterp spec fn cursor(ts: MultiPeek<IntoIter<Token>>) -> nat;

/// Relies on itertools::multipeek over the vector's own iterator: the stream
/// hands out the tokens in order, and its peek cursor starts at the front.
#[verifier::external_body]
fn token_stream(tokens: Vec<Token>) -> (r: MultiPeek<IntoIter<Token>>)
    ensures
        pending(r) == tokens@,
        cursor(r) == 0,
{
    itertools::multipeek(tokens)
}

/// Relies on MultiPeek's Iterator::next: it hands out the first pending
/// token, if any, and resets the peek cursor.
#[verifier::external_body]
fn next_token(ts: &mut MultiPeek<IntoIter<Token>>) -> (r: Option<Token>)
    ensures
        pending(*old(ts)).len() > 0 ==> r == Some(pending(*old(ts))[0]) && pending(*final(ts))
            == pending(*old(ts)).drop_first(),
        pending(*old(ts)).len() == 0 ==> r is None && pending(*final(ts)) == pending(*old(ts)),
        cursor(*final(ts)) == 0,
{
    ts.next()
}

/// Relies on MultiPeek::peek: it shows the pending token under the cursor
/// and moves the cursor on by one; past the end it shows none and leaves the
/// cursor where it is. Nothing is handed out.
#[verifier::external_body]
fn peek_token(ts: &mut MultiPeek<IntoIter<Token>>) -> (r: Option<Token>)
    ensures
        pending(*final(ts)) == pending(*old(ts)),
        cursor(*old(ts)) < pending(*old(ts)).len() ==> r == Some(
            pending(*old(ts))[cursor(*old(ts)) as int],
        ) && cursor(*final(ts)) == cursor(*old(ts)) + 1,
        cursor(*old(ts)) >= pending(*old(ts)).len() ==> r is None && cursor(*final(ts)) == cursor(
            *old(ts),
        ),
{
    ts.peek().cloned()
}

/// Relies on MultiPeek::reset_peek: it moves the peek cursor back to the
/// first pending token.
#[verifier::external_body]
fn reset_cursor(ts: &mut MultiPeek<IntoIter<Token>>)
    ensures
        pending(*final(ts)) == pending(*old(ts)),
        cursor(*final(ts)) == 0,
{
    ts.reset_peek()
}

/// The first pending token, without handing it out.
fn lookahead(ts: &mut MultiPeek<IntoIter<Token>>) -> (r: Option<Token>)
    ensures
        pending(*final(ts)) == pending(*old(ts)),
        r == first(pending(*old(ts))),
        cursor(*final(ts)) <= 1,
{
    reset_cursor(ts);
    peek_token(ts)
}

pub open spec fn first(ts: Seq<Token>) -> Option<Token> {
    if ts.len() > 0 {
        Some(ts[0])
    } else {
        None
    }
}

/// A parsed tree with the tokens that follow it, or the error.
pub type Parsed = Result<(Ast, Seq<Token>), ParserError>;

pub open spec fn outcome(p: Parsed) -> Result<Ast, ParserError> {
    match p {
        Ok((a, _)) => Ok(a),
        Err(e) => Err(e),
    }
}

pub open spec fn leftover(p: Parsed) -> Seq<Token> {
    match p {
        Ok((_, rest)) => rest,
        Err(_) => Seq::empty(),
    }
}

pub open spec fn starts_with_additive(ts: Seq<Token>) -> bool {
    ts.len() > 0 && (ts[0].value is Plus || ts[0].value is Minus)
}

pub open spec fn starts_with_multiplicative(ts: Seq<Token>) -> bool {
    ts.len() > 0 && (ts[0].value is Asterisk || ts[0].value is Slash)
}

pub open spec fn binop_node(op: BinOp, lhs: Ast, rhs: Ast) -> Ast {
    Ast {
        value: AstKind::BinOp { op, lhs: Box::new(lhs), rhs: Box::new(rhs) },
        loc: lhs.loc.spec_merge(rhs.loc),
    }
}

/// factor ::= NUMBER | IDENT | "(" expr ")"
pub open spec fn factor(ts: Seq<Token>) -> Parsed
    decreases ts.len(), 0nat,
{
    if ts.len() == 0 {
        Err(ParserError::Eof)
    } else {
        let t = ts[0];
        let rest = ts.drop_first();
        match t.value {
            TokenKind::Number(n) => Ok((Ast { value: AstKind::Num(n), loc: t.loc }, rest)),
            TokenKind::Var(s) => Ok((Ast { value: AstKind::Var(s), loc: t.loc }, rest)),
            TokenKind::Lparen => match expr(rest) {
                Ok((e, after)) => if after.len() == 0 {
                    Err(ParserError::UnclosedOpenParen(t))
                } else if after[0].value is Rparen {
                    Ok((e, after.drop_first()))
                } else {
                    Err(ParserError::RedundantExpression(after[0]))
                },
                Err(err) => Err(err),
            },
            _ => Err(ParserError::NotExpression(t)),
        }
    }
}

/// unary ::= ("+" | "-") factor | factor; the node's span is its operand's.
pub open spec fn unary(ts: Seq<Token>) -> Parsed
    decreases ts.len(), 1nat,
{
    if starts_with_additive(ts) {
        let op = UniOp {
            value: if ts[0].value is Plus { UniOpKind::Plus } else { UniOpKind::Minus },
            loc: ts[0].loc,
        };
        match factor(ts.drop_first()) {
            Ok((e, rest)) => Ok((Ast { value: AstKind::UniOp { op, e: Box::new(e) }, loc: e.loc }, rest)),
            Err(err) => Err(err),
        }
    } else {
        factor(ts)
    }
}

/// The rest of a term after its first operand `lhs`: (("*" | "/") unary)*,
/// grouped to the left.
pub open spec fn term_tail(lhs: Ast, ts: Seq<Token>) -> Parsed
    decreases ts.len(), 3nat,
{
    if starts_with_multiplicative(ts) {
        let op = BinOp {
            value: if ts[0].value is Asterisk { BinOpKind::Mul } else { BinOpKind::Div },
            loc: ts[0].loc,
        };
        match unary(ts.drop_first()) {
            Ok((rhs, rest)) => if rest.len() < ts.len() {
                term_tail(binop_node(op, lhs, rhs), rest)
            } else {
                Err(ParserError::Eof)
            },
            Err(err) => Err(err),
        }
    } else {
        Ok((lhs, ts))
    }
}

/// term ::= unary (("*" | "/") unary)*
pub open spec fn term(ts: Seq<Token>) -> Parsed
    decreases ts.len(), 2nat,
{
    match unary(ts) {
        Ok((lhs, rest)) => if rest.len() < ts.len() {
            term_tail(lhs, rest)
        } else {
            Err(ParserError::Eof)
        },
        Err(err) => Err(err),
    }
}

/// The rest of an expression after its first operand `lhs`:
/// (("+" | "-") term)*, grouped to the left.
pub open spec fn expr_tail(lhs: Ast, ts: Seq<Token>) -> Parsed
    decreases ts.len(), 5nat,
{
    if starts_with_additive(ts) {
        let op = BinOp {
            value: if ts[0].value is Plus { BinOpKind::Add } else { BinOpKind::Sub },
            loc: ts[0].loc,
        };
        match term(ts.drop_first()) {
            Ok((rhs, rest)) => if rest.len() < ts.len() {
                expr_tail(binop_node(op, lhs, rhs), rest)
            } else {
                Err(ParserError::Eof)
            },
            Err(err) => Err(err),
        }
    } else {
        Ok((lhs, ts))
    }
}

/// expr ::= term (("+" | "-") term)*
pub open spec fn expr(ts: Seq<Token>) -> Parsed
    decreases ts.len(), 4nat,
{
    match term(ts) {
        Ok((lhs, rest)) => if rest.len() < ts.len() {
            expr_tail(lhs, rest)
        } else {
            Err(ParserError::Eof)
        },
        Err(err) => Err(err),
    }
}

/// stmt ::= IDENT ":=" expr | expr
pub open spec fn stmt(ts: Seq<Token>) -> Parsed {
    if ts.len() >= 2 && ts[0].value is Var && ts[1].value is Bind {
        match expr(ts.subrange(2, ts.len() as int)) {
            Ok((body, rest)) => Ok(
                (
                    Ast {
                        value: AstKind::Bind { var: ts[0].value->Var_0, body: Box::new(body) },
                        loc: ts[0].loc.spec_merge(body.loc),
                    },
                    rest,
                ),
            ),
            Err(err) => Err(err),
        }
    } else {
        expr(ts)
    }
}

/// A whole statement that uses up all the tokens.
pub open spec fn parse(ts: Seq<Token>) -> Result<Ast, ParserError> {
    match stmt(ts) {
        Ok((a, rest)) => if rest.len() > 0 {
            Err(ParserError::RedundantExpression(rest[0]))
        } else {
            Ok(a)
        },
        Err(err) => Err(err),
    }
}

/// Parses a factor from the front of the stream, as `factor` says.
fn parse_factor(ts: &mut MultiPeek<IntoIter<Token>>) -> (r: Result<Ast, ParserError>)
    ensures
        r == outcome(factor(pending(*old(ts)))),
        r is Ok ==> pending(*final(ts)) == leftover(factor(pending(*old(ts)))),
        r is Ok ==> pending(*final(ts)).len() < pending(*old(ts)).len(),
        r matches Ok(a) ==> no_bind(a),
    decreases pending(*old(ts)).len(), 0nat,
{
    let tok = match next_token(ts) {
        Some(tok) => tok,
        None => return Err(ParserError::Eof),
    };
    match tok.value {
        TokenKind::Number(n) => Ok(Ast::num(n, tok.loc)),
        TokenKind::Var(s) => Ok(Ast::var(s, tok.loc)),
        TokenKind::Lparen => {
            let e = match parse_expr(ts) {
                Ok(e) => e,
                Err(err) => return Err(err),
            };
            match next_token(ts) {
                Some(t) => {
                    if let TokenKind::Rparen = t.value {
                        Ok(e)
                    } else {
                        Err(ParserError::RedundantExpression(t))
                    }
                },
                None => Err(ParserError::UnclosedOpenParen(Token::lparen(tok.loc))),
            }
        },
        _ => Err(ParserError::NotExpression(tok)),
    }
}

/// Parses a signed factor from the front of the stream, as `unary` says.
fn parse_unary(ts: &mut MultiPeek<IntoIter<Token>>) -> (r: Result<Ast, ParserError>)
    ensures
        r == outcome(unary(pending(*old(ts)))),
        r is Ok ==> pending(*final(ts)) == leftover(unary(pending(*old(ts)))),
        r is Ok ==> pending(*final(ts)).len() < pending(*old(ts)).len(),
        r matches Ok(a) ==> no_bind(a),
    decreases pending(*old(ts)).len(), 1nat,
{
    let op = match lookahead(ts) {
        Some(Token { value: TokenKind::Plus, loc }) => UniOp::plus(loc),
        Some(Token { value: TokenKind::Minus, loc }) => UniOp::minus(loc),
        _ => return parse_factor(ts),
    };
    let _ = next_token(ts);
    let e = match parse_factor(ts) {
        Ok(e) => e,
        Err(err) => return Err(err),
    };
    let loc = e.loc;
    Ok(Ast::uniop(op, e, loc))
}

/// Parses a term from the front of the stream, as `term` says.
fn parse_term(ts: &mut MultiPeek<IntoIter<Token>>) -> (r: Result<Ast, ParserError>)
    ensures
        r == outcome(term(pending(*old(ts)))),
        r is Ok ==> pending(*final(ts)) == leftover(term(pending(*old(ts)))),
        r is Ok ==> pending(*final(ts)).len() < pending(*old(ts)).len(),
        r matches Ok(a) ==> no_bind(a),
    decreases pending(*old(ts)).len(), 2nat,
{
    let ghost start = pending(*ts);
    let mut lhs = match parse_unary(ts) {
        Ok(a) => a,
        Err(err) => return Err(err),
    };
    loop
        invariant
            start == pending(*old(ts)),
            term(start) == term_tail(lhs, pending(*ts)),
            pending(*ts).len() < start.len(),
            no_bind(lhs),
        decreases pending(*ts).len(),
    {
        let op = match lookahead(ts) {
            Some(Token { value: TokenKind::Asterisk, loc }) => BinOp::mul(loc),
            Some(Token { value: TokenKind::Slash, loc }) => BinOp::div(loc),
            _ => return Ok(lhs),
        };
        let _ = next_token(ts);
        let rhs = match parse_unary(ts) {
            Ok(a) => a,
            Err(err) => return Err(err),
        };
        let loc = lhs.loc.merge(&rhs.loc);
        lhs = Ast::binop(op, lhs, rhs, loc);
    }
}

/// Parses an expression from the front of the stream, as `expr` says.
fn parse_expr(ts: &mut MultiPeek<IntoIter<Token>>) -> (r: Result<Ast, ParserError>)
    ensures
        r == outcome(expr(pending(*old(ts)))),
        r is Ok ==> pending(*final(ts)) == leftover(expr(pending(*old(ts)))),
        r is Ok ==> pending(*final(ts)).len() < pending(*old(ts)).len(),
        r matches Ok(a) ==> no_bind(a),
    decreases pending(*old(ts)).len(), 4nat,
{
    let ghost start = pending(*ts);
    let mut lhs = match parse_term(ts) {
        Ok(a) => a,
        Err(err) => return Err(err),
    };
    loop
        invariant
            start == pending(*old(ts)),
            expr(start) == expr_tail(lhs, pending(*ts)),
            pending(*ts).len() < start.len(),
            no_bind(lhs),
        decreases pending(*ts).len(),
    {
        let op = match lookahead(ts) {
            Some(Token { value: TokenKind::Plus, loc }) => BinOp::add(loc),
            Some(Token { value: TokenKind::Minus, loc }) => BinOp::sub(loc),
            _ => return Ok(lhs),
        };
        let _ = next_token(ts);
        let rhs = match parse_term(ts) {
            Ok(a) => a,
            Err(err) => return Err(err),
        };
        let loc = lhs.loc.merge(&rhs.loc);
        lhs = Ast::binop(op, lhs, rhs, loc);
    }
}

/// stmt ::= IDENT ":=" expr | expr; telling the two apart takes a look at
/// the first two tokens.
fn parse_stmt(ts: &mut MultiPeek<IntoIter<Token>>) -> (r: Result<Ast, ParserError>)
    ensures
        r == outcome(stmt(pending(*old(ts)))),
        r is Ok ==> pending(*final(ts)) == leftover(stmt(pending(*old(ts)))),
        r matches Ok(a) ==> is_stmt(a),
{
    let ghost start = pending(*ts);
    reset_cursor(ts);
    let is_binding = match peek_token(ts) {
        Some(Token { value: TokenKind::Var(_), .. }) => match peek_token(ts) {
            Some(Token { value: TokenKind::Bind, .. }) => true,
            _ => false,
        },
        _ => false,
    };
    if !is_binding {
        return parse_expr(ts);
    }
    // The two tokens peeked at above: the name, then the binding operator.
    let (var, var_loc) = match next_token(ts) {
        Some(Token { value: TokenKind::Var(s), loc }) => (s, loc),
        _ => return Err(ParserError::Eof),
    };
    let _ = next_token(ts);
    assert(pending(*ts) =~= start.subrange(2, start.len() as int));
    let body = match parse_expr(ts) {
        Ok(a) => a,
        Err(err) => return Err(err),
    };
    let loc = var_loc.merge(&body.loc);
    Ok(Ast::bind(var, Box::new(body), loc))
}

/// Parses a whole statement from `tokens`, which it must use up.
pub fn parser(tokens: Vec<Token>) -> (r: Result<Ast, ParserError>)
    ensures
        r == parse(tokens@),
        r matches Ok(a) ==> is_stmt(a),
{
    let mut ts = token_stream(tokens);
    let ast = match parse_stmt(&mut ts) {
        Ok(a) => a,
        Err(err) => return Err(err),
    };
    match next_token(&mut ts) {
        Some(tok) => Err(ParserError::RedundantExpression(tok)),
        None => Ok(ast),
    }
}

/// A number or a name: a token that a tree's span can begin or end with.
pub open spec fn is_operand(t: Token) -> bool {
    t.value is Number || t.value is Var
}

/// Each token's span is well formed, and the spans come in order without
/// overlapping, as the lexer makes them.
pub open spec fn ordered_spans(ts: Seq<Token>) -> bool {
    &&& forall|i: int| 0 <= i < ts.len() ==> (#[trigger] ts[i]).loc.0 <= ts[i].loc.1
    &&& forall|i: int, j: int|
        0 <= i < j < ts.len() ==> (#[trigger] ts[i]).loc.1 <= (#[trigger] ts[j]).loc.0
}

/// `l`, the span of a tree built from the tokens `ts[p..q]`, lies within
/// theirs, and begins (ends) with the first (last) of them where that one
/// is an operand.
pub open spec fn spans_tokens(l: Loc, ts: Seq<Token>, p: int, q: int) -> bool {
    &&& 0 <= p < q <= ts.len()
    &&& ts[p].loc.0 <= l.0 <= l.1 <= ts[q - 1].loc.1
    &&& is_operand(ts[p]) ==> l.0 == ts[p].loc.0
    &&& is_operand(ts[q - 1]) ==> l.1 == ts[q - 1].loc.1
}

/// A successful parse of `full[p..]` used the tokens `full[p..q]` for some
/// `q`, and its tree spans them.
pub open spec fn parsed_span(r: Parsed, full: Seq<Token>, p: int) -> bool {
    r matches Ok((a, rest)) ==> {
        let q = full.len() - rest.len();
        &&& rest == full.subrange(q, full.len() as int)
        &&& spans_tokens(a.loc, full, p, q)
    }
}

/// A successful parse of the rest of an expression or a term, which went on
/// from a first operand built from `full[from..p]`, spans the tokens used in all.
pub open spec fn tail_span(r: Parsed, full: Seq<Token>, from: int, p: int) -> bool {
    r matches Ok((a, rest)) ==> {
        let q = full.len() - rest.len();
        &&& p <= q
        &&& rest == full.subrange(q, full.len() as int)
        &&& spans_tokens(a.loc, full, from, q)
    }
}

proof fn lemma_binop_span(op: BinOp, lhs: Ast, rhs: Ast, full: Seq<Token>, from: int, p: int, q: int)
    requires
        ordered_spans(full),
        spans_tokens(lhs.loc, full, from, p),
        spans_tokens(rhs.loc, full, p + 1, q),
    ensures
        spans_tokens(binop_node(op, lhs, rhs).loc, full, from, q),
{
    assert(full[p - 1].loc.1 <= full[p].loc.0);
    assert(full[p].loc.1 <= full[p + 1].loc.0);
}

proof fn lemma_factor_span(full: Seq<Token>, p: int)
    requires
        ordered_spans(full),
        0 <= p <= full.len(),
    ensures
        parsed_span(factor(full.subrange(p, full.len() as int)), full, p),
    decreases full.len() - p, 0nat,
{
    let ts = full.subrange(p, full.len() as int);
    if ts.len() > 0 {
        assert(ts.drop_first() =~= full.subrange(p + 1, full.len() as int));
        assert(ts[0] == full[p]);
        if ts[0].value is Lparen {
            lemma_expr_span(full, p + 1);
            if let Ok((e, after)) = expr(ts.drop_first()) {
                let q1 = full.len() - after.len();
                if after.len() > 0 && after[0].value is Rparen {
                    assert(after[0] == full[q1]);
                    assert(after.drop_first() =~= full.subrange(q1 + 1, full.len() as int));
                    assert(full[p].loc.1 <= full[p + 1].loc.0);
                    assert(full[q1 - 1].loc.1 <= full[q1].loc.0);
                }
            }
        }
    }
}

proof fn lemma_unary_span(full: Seq<Token>, p: int)
    requires
        ordered_spans(full),
        0 <= p <= full.len(),
    ensures
        parsed_span(unary(full.subrange(p, full.len() as int)), full, p),
    decreases full.len() - p, 1nat,
{
    let ts = full.subrange(p, full.len() as int);
    if starts_with_additive(ts) {
        assert(ts.drop_first() =~= full.subrange(p + 1, full.len() as int));
        assert(ts[0] == full[p]);
        lemma_factor_span(full, p + 1);
        if p + 1 < full.len() {
            assert(full[p].loc.1 <= full[p + 1].loc.0);
        }
    } else {
        lemma_factor_span(full, p);
    }
}

proof fn lemma_term_tail_span(lhs: Ast, full: Seq<Token>, from: int, p: int)
    requires
        ordered_spans(full),
        spans_tokens(lhs.loc, full, from, p),
    ensures
        tail_span(term_tail(lhs, full.subrange(p, full.len() as int)), full, from, p),
    decreases full.len() - p, 3nat,
{
    let ts = full.subrange(p, full.len() as int);
    if starts_with_multiplicative(ts) {
        assert(ts.drop_first() =~= full.subrange(p + 1, full.len() as int));
        assert(ts[0] == full[p]);
        let op = BinOp {
            value: if ts[0].value is Asterisk { BinOpKind::Mul } else { BinOpKind::Div },
            loc: ts[0].loc,
        };
        lemma_unary_span(full, p + 1);
        if let Ok((rhs, rest)) = unary(ts.drop_first()) {
            let q = full.len() - rest.len();
            lemma_binop_span(op, lhs, rhs, full, from, p, q);
            lemma_term_tail_span(binop_node(op, lhs, rhs), full, from, q);
        }
    } else {
        assert(ts =~= full.subrange(p, full.len() as int));
    }
}

proof fn lemma_term_span(full: Seq<Token>, p: int)
    requires
        ordered_spans(full),
        0 <= p <= full.len(),
    ensures
        parsed_span(term(full.subrange(p, full.len() as int)), full, p),
    decreases full.len() - p, 2nat,
{
    let ts = full.subrange(p, full.len() as int);
    lemma_unary_span(full, p);
    if let Ok((lhs, rest)) = unary(ts) {
        let q = full.len() - rest.len();
        lemma_term_tail_span(lhs, full, p, q);
    }
}

proof fn lemma_expr_tail_span(lhs: Ast, full: Seq<Token>, from: int, p: int)
    requires
        ordered_spans(full),
        spans_tokens(lhs.loc, full, from, p),
    ensures
        tail_span(expr_tail(lhs, full.subrange(p, full.len() as int)), full, from, p),
    decreases full.len() - p, 5nat,
{
    let ts = full.subrange(p, full.len() as int);
    if starts_with_additive(ts) {
        assert(ts.drop_first() =~= full.subrange(p + 1, full.len() as int));
        assert(ts[0] == full[p]);
        let op = BinOp {
            value: if ts[0].value is Plus { BinOpKind::Add } else { BinOpKind::Sub },
            loc: ts[0].loc,
        };
        lemma_term_span(full, p + 1);
        if let Ok((rhs, rest)) = term(ts.drop_first()) {
            let q = full.len() - rest.len();
            lemma_binop_span(op, lhs, rhs, full, from, p, q);
            lemma_expr_tail_span(binop_node(op, lhs, rhs), full, from, q);
        }
    }
}

proof fn lemma_expr_span(full: Seq<Token>, p: int)
    requires
        ordered_spans(full),
        0 <= p <= full.len(),
    ensures
        parsed_span(expr(full.subrange(p, full.len() as int)), full, p),
    decreases full.len() - p, 4nat,
{
    let ts = full.subrange(p, full.len() as int);
    lemma_term_span(full, p);
    if let Ok((lhs, rest)) = term(ts) {
        let q = full.len() - rest.len();
        lemma_expr_tail_span(lhs, full, p, q);
    }
}

/// The tree of a statement that uses up tokens with ordered spans lies
/// within their spans, and begins (ends) with the first (last) token where
/// that one is a number or a name.
pub proof fn lemma_parse_span(ts: Seq<Token>)
    requires
        ordered_spans(ts),
        parse(ts) is Ok,
    ensures
        spans_tokens(parse(ts)->Ok_0.loc, ts, 0, ts.len() as int),
{
    if ts.len() >= 2 && ts[0].value is Var && ts[1].value is Bind {
        lemma_expr_span(ts, 2);
        assert(ts[0].loc.1 <= ts[1].loc.0);
        assert(ts[1].loc.1 <= ts[2].loc.0);
    } else {
        assert(ts.subrange(0, ts.len() as int) =~= ts);
        lemma_expr_span(ts, 0);
    }
}

/// An input that tokenizes and parses as a statement, with no blank before
/// its first token, gets a tree whose span runs from offset 0 to the end of
/// its last character that is not blank; that is, it covers the input with
/// trailing blanks trimmed. This holds where the first token is a number or a
/// name and so is the last: a parenthesized tree has the span of what is
/// inside the parentheses, and a signed one the span of its operand.
pub proof fn lemma_statement_spans_input(s: Seq<char>, ts: Seq<Token>)
    requires
        s.len() < usize::MAX,
        lex(s) == Ok::<Seq<(Lexeme, Loc)>, LexerError>(tokens_view(ts)),
        parse(ts) is Ok,
        s.len() > 0 && !is_blank(s[0]),
        ts.len() > 0 && is_operand(ts[0]) && is_operand(ts.last()),
    ensures
        parse(ts)->Ok_0.loc.0 == 0,
        ({
            let e = parse(ts)->Ok_0.loc.1 as int;
            &&& 0 < e <= s.len()
            &&& !is_blank(s[e - 1])
            &&& forall|k: int| e <= k < s.len() ==> is_blank(#[trigger] s[k])
        }),
{
    lemma_lex_from_spans(s, 0);
    let v = tokens_view(ts);
    assert(forall|k: int| 0 <= k < ts.len() ==> (#[trigger] ts[k]).loc == v[k].1);
    assert(v.last() == v[ts.len() - 1]);
    assert(ordered_spans(ts));
    lemma_parse_span(ts);
}

/// A derivation in the grammar of expressions, grouped to the left:
/// expr ::= expr ("+" | "-") term | term, term ::= term ("*" | "/") unary |
/// unary, unary ::= ("+" | "-") factor | factor, and
/// factor ::= NUMBER | IDENT | "(" expr ")".
pub enum Derivation {
    Number(u64, Loc),
    Name(String, Loc),
    /// The spans of `(` and `)` around an expression.
    Paren(Loc, Box<Derivation>, Loc),
    Signed(UniOp, Box<Derivation>),
    Product(Box<Derivation>, BinOp, Box<Derivation>),
    Sum(Box<Derivation>, BinOp, Box<Derivation>),
}

pub open spec fn is_factor(d: Derivation) -> bool
    decreases d, 0nat,
{
    match d {
        Derivation::Number(..) => true,
        Derivation::Name(..) => true,
        Derivation::Paren(_, e, _) => is_expr(*e),
        _ => false,
    }
}

pub open spec fn is_unary(d: Derivation) -> bool
    decreases d, 1nat,
{
    match d {
        Derivation::Signed(_, f) => is_factor(*f),
        _ => is_factor(d),
    }
}

pub open spec fn is_term(d: Derivation) -> bool
    decreases d, 2nat,
{
    match d {
        Derivation::Product(l, op, r) => (op.value is Mul || op.value is Div) && is_term(*l) && is_unary(
            *r,
        ),
        _ => is_unary(d),
    }
}

pub open spec fn is_expr(d: Derivation) -> bool
    decreases d, 3nat,
{
    match d {
        Derivation::Sum(l, op, r) => (op.value is Add || op.value is Sub) && is_expr(*l) && is_term(*r),
        _ => is_term(d),
    }
}

/// The tokens that a derivation derives.
pub open spec fn derived(d: Derivation) -> Seq<Token>
    decreases d,
{
    match d {
        Derivation::Number(n, loc) => seq![Token { value: TokenKind::Number(n), loc }],
        Derivation::Name(s, loc) => seq![Token { value: TokenKind::Var(s), loc }],
        Derivation::Paren(open, e, close) => seq![Token { value: TokenKind::Lparen, loc: open }]
            + derived(*e) + seq![Token { value: TokenKind::Rparen, loc: close }],
        Derivation::Signed(op, f) => seq![
            Token {
                value: match op.value {
                    UniOpKind::Plus => TokenKind::Plus,
                    UniOpKind::Minus => TokenKind::Minus,
                },
                loc: op.loc,
            },
        ] + derived(*f),
        Derivation::Product(l, op, r) => derived(*l) + seq![
            Token {
                value: match op.value {
                    BinOpKind::Div => TokenKind::Slash,
                    _ => TokenKind::Asterisk,
                },
                loc: op.loc,
            },
        ] + derived(*r),
        Derivation::Sum(l, op, r) => derived(*l) + seq![
            Token {
                value: match op.value {
                    BinOpKind::Sub => TokenKind::Minus,
                    _ => TokenKind::Plus,
                },
                loc: op.loc,
            },
        ] + derived(*r),
    }
}

/// The tokens of a statement: an expression, bound to a name where `name`
/// gives the name with the spans of the name and of `:=`.
pub open spec fn derived_stmt(name: Option<(String, Loc, Loc)>, d: Derivation) -> Seq<Token> {
    match name {
        Some((s, at, bind)) => seq![
            Token { value: TokenKind::Var(s), loc: at },
            Token { value: TokenKind::Bind, loc: bind },
        ] + derived(d),
        None => derived(d),
    }
}

proof fn lemma_derived_shape(d: Derivation)
    ensures
        derived(d).len() > 0,
        forall|i: int| 0 <= i < derived(d).len() ==> !((#[trigger] derived(d)[i]).value is Bind),
        is_unary(d) ==> !(derived(d)[0].value is Rparen) && !(derived(d)[0].value is Asterisk)
            && !(derived(d)[0].value is Slash),
        is_factor(d) ==> !(derived(d)[0].value is Plus) && !(derived(d)[0].value is Minus),
    decreases d,
{
    match d {
        Derivation::Paren(_, e, _) => {
            lemma_derived_shape(*e);
        },
        Derivation::Signed(_, f) => {
            lemma_derived_shape(*f);
        },
        Derivation::Product(l, _, r) => {
            lemma_derived_shape(*l);
            lemma_derived_shape(*r);
        },
        Derivation::Sum(l, _, r) => {
            lemma_derived_shape(*l);
            lemma_derived_shape(*r);
        },
        _ => {},
    }
}

proof fn lemma_factor_complete(d: Derivation, rest: Seq<Token>)
    requires
        is_factor(d),
    ensures
        factor(derived(d) + rest) matches Ok((_, r)) && r == rest,
    decreases d, 0nat,
{
    let ts = derived(d) + rest;
    match d {
        Derivation::Paren(open, e, close) => {
            let closing = seq![Token { value: TokenKind::Rparen, loc: close }] + rest;
            assert(ts.drop_first() =~= derived(*e) + closing);
            lemma_expr_complete(*e, closing);
            assert(closing.drop_first() =~= rest);
        },
        _ => {
            assert(ts.drop_first() =~= rest);
        },
    }
}

proof fn lemma_unary_complete(d: Derivation, rest: Seq<Token>)
    requires
        is_unary(d),
    ensures
        unary(derived(d) + rest) matches Ok((_, r)) && r == rest,
    decreases d, 1nat,
{
    let ts = derived(d) + rest;
    match d {
        Derivation::Signed(op, f) => {
            assert(ts.drop_first() =~= derived(*f) + rest);
            lemma_factor_complete(*f, rest);
        },
        _ => {
            lemma_derived_shape(d);
            assert(ts[0] == derived(d)[0]);
            lemma_factor_complete(d, rest);
        },
    }
}

/// A term consumes its tokens, and the parse goes on with what follows.
proof fn lemma_term_complete(d: Derivation, rest: Seq<Token>) -> (a: Ast)
    requires
        is_term(d),
    ensures
        term(derived(d) + rest) == term_tail(a, rest),
    decreases d, 2nat,
{
    match d {
        Derivation::Product(l, op, r) => {
            let tok = derived(d)[derived(*l).len() as int];
            let after = seq![tok] + derived(*r) + rest;
            assert(derived(d) + rest =~= derived(*l) + after);
            let a = lemma_term_complete(*l, after);
            assert(after.drop_first() =~= derived(*r) + rest);
            lemma_unary_complete(*r, rest);
            lemma_derived_shape(*r);
            let (rhs, _) = unary(derived(*r) + rest)->Ok_0;
            let op2 = BinOp {
                value: if tok.value is Asterisk { BinOpKind::Mul } else { BinOpKind::Div },
                loc: tok.loc,
            };
            binop_node(op2, a, rhs)
        },
        _ => {
            lemma_unary_complete(d, rest);
            lemma_derived_shape(d);
            unary(derived(d) + rest)->Ok_0.0
        },
    }
}

/// An expression consumes its tokens, and the parse goes on with what
/// follows, where that does not begin with `*` or `/`.
proof fn lemma_expr_complete(d: Derivation, rest: Seq<Token>) -> (a: Ast)
    requires
        is_expr(d),
        !starts_with_multiplicative(rest),
    ensures
        expr(derived(d) + rest) == expr_tail(a, rest),
    decreases d, 3nat,
{
    match d {
        Derivation::Sum(l, op, r) => {
            let tok = derived(d)[derived(*l).len() as int];
            let after = seq![tok] + derived(*r) + rest;
            assert(derived(d) + rest =~= derived(*l) + after);
            let a = lemma_expr_complete(*l, after);
            assert(after.drop_first() =~= derived(*r) + rest);
            let b = lemma_term_complete(*r, rest);
            lemma_derived_shape(*r);
            let op2 = BinOp {
                value: if tok.value is Plus { BinOpKind::Add } else { BinOpKind::Sub },
                loc: tok.loc,
            };
            binop_node(op2, a, b)
        },
        _ => {
            let b = lemma_term_complete(d, rest);
            lemma_derived_shape(d);
            b
        },
    }
}

/// Every statement that the grammar derives parses: an expression, or a
/// name, `:=` and an expression.
pub proof fn lemma_derived_stmt_parses(name: Option<(String, Loc, Loc)>, d: Derivation)
    requires
        is_expr(d),
    ensures
        parse(derived_stmt(name, d)) is Ok,
{
    let ts = derived_stmt(name, d);
    let empty = Seq::<Token>::empty();
    lemma_derived_shape(d);
    let a = lemma_expr_complete(d, empty);
    assert(derived(d) + empty =~= derived(d));
    match name {
        Some(_) => {
            assert(ts.subrange(2, ts.len() as int) =~= derived(d));
        },
        None => {
            if ts.len() >= 2 {
                assert(!(ts[1].value is Bind));
            }
        },
    }
}

} // verus!
