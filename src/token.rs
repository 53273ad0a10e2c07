use vstd::prelude::*;
use crate::loc::{Annot, Loc};
use crate::text::{decimal, push_char, push_decimal};

verus! {

/// What a token is, apart from where it stands.
#[derive(Debug, Clone, PartialEq)]
pub enum TokenKind {
    /// A run of decimal digits.
    Number(u64),
    Plus,
    Minus,
    Asterisk,
    Slash,
    Lparen,
    Rparen,
    /// The binding operator `:=`.
    Bind,
    /// A run of lowercase letters.
    Var(String),
}

/// The mathematical content of a token kind: a name is its characters.
pub enum Lexeme {
    Number(u64),
    Plus,
    Minus,
    Asterisk,
    Slash,
    Lparen,
    Rparen,
    Bind,
    Var(Seq<char>),
}

impl View for TokenKind {
    type V = Lexeme;

    open spec fn view(&self) -> Lexeme {
        match self {
            TokenKind::Number(n) => Lexeme::Number(*n),
            TokenKind::Plus => Lexeme::Plus,
            TokenKind::Minus => Lexeme::Minus,
            TokenKind::Asterisk => Lexeme::Asterisk,
            TokenKind::Slash => Lexeme::Slash,
            TokenKind::Lparen => Lexeme::Lparen,
            TokenKind::Rparen => Lexeme::Rparen,
            TokenKind::Bind => Lexeme::Bind,
            TokenKind::Var(s) => Lexeme::Var(s@),
        }
    }
}

/// How a token is written in messages.
pub open spec fn lexeme_text(k: Lexeme) -> Seq<char> {
    match k {
        Lexeme::Number(n) => decimal(n as nat),
        Lexeme::Plus => seq!['+'],
        Lexeme::Minus => seq!['-'],
        Lexeme::Asterisk => seq!['*'],
        Lexeme::Slash => seq!['/'],
        Lexeme::Lparen => seq!['('],
        Lexeme::Rparen => seq![')'],
        Lexeme::Bind => seq![':', '='],
        Lexeme::Var(s) => s,
    }
}

impl TokenKind {
    pub fn render(&self) -> (r: String)
        ensures
            r@ == lexeme_text(self@),
    {
        let mut out = String::new();
        match self {
            TokenKind::Number(n) => push_decimal(&mut out, *n),
            TokenKind::Plus => push_char(&mut out, '+'),
            TokenKind::Minus => push_char(&mut out, '-'),
            TokenKind::Asterisk => push_char(&mut out, '*'),
            TokenKind::Slash => push_char(&mut out, '/'),
            TokenKind::Lparen => push_char(&mut out, '('),
            TokenKind::Rparen => push_char(&mut out, ')'),
            TokenKind::Bind => {
                push_char(&mut out, ':');
                push_char(&mut out, '=');
            },
            TokenKind::Var(s) => return s.clone(),
        }
        assert(out@ =~= lexeme_text(self@));
        out
    }
}

pub type Token = Annot<TokenKind>;

/// The view of a token: its lexeme and its span.
pub open spec fn token_view(t: Token) -> (Lexeme, Loc) {
    (t.value@, t.loc)
}

/// The views of a sequence of tokens.
pub open spec fn tokens_view(ts: Seq<Token>) -> Seq<(Lexeme, Loc)> {
    ts.map_values(|t: Token| token_view(t))
}

impl Token {
    pub fn number(n: u64, loc: Loc) -> (r: Self)
        ensures
            r.value == TokenKind::Number(n),
            r.loc == loc,
    {
        Self::new(TokenKind::Number(n), loc)
    }

    pub fn plus(loc: Loc) -> (r: Self)
        ensures
            r.value == TokenKind::Plus,
            r.loc == loc,
    {
        Self::new(TokenKind::Plus, loc)
    }

    pub fn minus(loc: Loc) -> (r: Self)
        ensures
            r.value == TokenKind::Minus,
            r.loc == loc,
    {
        Self::new(TokenKind::Minus, loc)
    }

    pub fn asterisk(loc: Loc) -> (r: Self)
        ensures
            r.value == TokenKind::Asterisk,
            r.loc == loc,
    {
        Self::new(TokenKind::Asterisk, loc)
    }

    pub fn slash(loc: Loc) -> (r: Self)
        ensures
            r.value == TokenKind::Slash,
            r.loc == loc,
    {
        Self::new(TokenKind::Slash, loc)
    }

    pub fn lparen(loc: Loc) -> (r: Self)
        ensures
            r.value == TokenKind::Lparen,
            r.loc == loc,
    {
        Self::new(TokenKind::Lparen, loc)
    }

    pub fn rparen(loc: Loc) -> (r: Self)
        ensures
            r.value == TokenKind::Rparen,
            r.loc == loc,
    {
        Self::new(TokenKind::Rparen, loc)
    }

    pub fn bind(loc: Loc) -> (r: Self)
        ensures
            r.value == TokenKind::Bind,
            r.loc == loc,
    {
        Self::new(TokenKind::Bind, loc)
    }

    /// A name token; the name is copied from `s`.
    pub fn var(s: &str, loc: Loc) -> (r: Self)
        ensures
            r.value@ == Lexeme::Var(s@),
            r.loc == loc,
    {
        Self::new(TokenKind::Var(s.to_owned()), loc)
    }
}

} // verus!
