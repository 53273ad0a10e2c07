use vstd::prelude::*;
use vstd::string::{StrSliceExecFns, StringExecFns};
use crate::text::push_char;
use crate::loc::{loc_text, Annot, Loc};
use crate::token::{token_view, tokens_view, Lexeme, Token, TokenKind};

verus! {

/// Why the lexer stopped.
#[derive(Debug, Clone, Copy, PartialEq, Eq, Structural)]
pub enum LexerErrorKind {
    /// A character that starts no token.
    InvalidChar(char),
}

pub type LexerError = Annot<LexerErrorKind>;

/// The message of a lexer error.
pub open spec fn lexer_error_text(e: LexerError) -> Seq<char> {
    match e.value {
        LexerErrorKind::InvalidChar(c) => loc_text(e.loc) + ": invalid char '"@ + seq![c, '\''],
    }
}

impl LexerError {
    pub fn invalid_char(c: char, loc: Loc) -> (r: Self)
        ensures
            r.value == LexerErrorKind::InvalidChar(c),
            r.loc == loc,
    {
        Self::new(LexerErrorKind::InvalidChar(c), loc)
    }

    /// The message of the error: where, and which character.
    pub fn message(&self) -> (r: String)
        ensures
            r@ == lexer_error_text(*self),
    {
        let mut out = self.loc.render();
        out.append(": invalid char '");
        match self.value {
            LexerErrorKind::InvalidChar(c) => push_char(&mut out, c),
        }
        push_char(&mut out, '\'');
        assert(out@ =~= lexer_error_text(*self));
        out
    }
}

pub open spec fn is_digit(c: char) -> bool {
    '0' <= c && c <= '9'
}

pub open spec fn is_lower(c: char) -> bool {
    'a' <= c && c <= 'z'
}

/// The characters that a binding operator token is made of.
pub open spec fn is_bind_char(c: char) -> bool {
    c == ':' || c == '='
}

pub open spec fn is_blank(c: char) -> bool {
    c == ' ' || c == '\n' || c == '\t'
}

pub open spec fn digit_class() -> spec_fn(char) -> bool {
    |c: char| is_digit(c)
}

pub open spec fn lower_class() -> spec_fn(char) -> bool {
    |c: char| is_lower(c)
}

pub open spec fn bind_class() -> spec_fn(char) -> bool {
    |c: char| is_bind_char(c)
}

/// The end of the longest run of characters of class `p` that starts at `i`.
pub open spec fn run_end(s: Seq<char>, i: int, p: spec_fn(char) -> bool) -> int
    decreases s.len() - i,
{
    if 0 <= i < s.len() && p(s[i]) {
        run_end(s, i + 1, p)
    } else {
        i
    }
}

pub open spec fn digit_value(c: char) -> int {
    (c as u32) as int - ('0' as u32) as int
}

/// The decimal value of a run of digits, modulo 2^64.
pub open spec fn literal_value(ds: Seq<char>) -> u64
    decreases ds.len(),
{
    if ds.len() == 0 {
        0
    } else {
        ((literal_value(ds.drop_last()) as int * 10 + digit_value(ds.last())) % 0x1_0000_0000_0000_0000)
            as u64
    }
}

/// The token of a character that is a token on its own.
pub open spec fn single_lexeme(c: char) -> Option<Lexeme> {
    if c == '+' {
        Some(Lexeme::Plus)
    } else if c == '-' {
        Some(Lexeme::Minus)
    } else if c == '*' {
        Some(Lexeme::Asterisk)
    } else if c == '/' {
        Some(Lexeme::Slash)
    } else if c == '(' {
        Some(Lexeme::Lparen)
    } else if c == ')' {
        Some(Lexeme::Rparen)
    } else {
        None
    }
}

/// Puts `t` in front of the tokens of a successful scan.
pub open spec fn prepend(t: (Lexeme, Loc), rest: Result<Seq<(Lexeme, Loc)>, LexerError>) -> Result<
    Seq<(Lexeme, Loc)>,
    LexerError,
> {
    match rest {
        Ok(ts) => Ok(seq![t] + ts),
        Err(e) => Err(e),
    }
}

/// Puts `done` in front of the tokens of a successful scan.
pub open spec fn after(done: Seq<(Lexeme, Loc)>, rest: Result<Seq<(Lexeme, Loc)>, LexerError>) -> Result<
    Seq<(Lexeme, Loc)>,
    LexerError,
> {
    match rest {
        Ok(ts) => Ok(done + ts),
        Err(e) => Err(e),
    }
}

/// The tokens of `s` from offset `i` on, or the first character there that
/// starts no token.
pub open spec fn lex_from(s: Seq<char>, i: int) -> Result<Seq<(Lexeme, Loc)>, LexerError>
    decreases s.len() - i,
{
    if i < 0 || i >= s.len() {
        Ok(Seq::empty())
    } else {
        proof {
            lemma_run_end_bounds(s, i, digit_class());
            lemma_run_end_bounds(s, i, lower_class());
            lemma_run_end_bounds(s, i, bind_class());
        }
        let c = s[i];
        if is_blank(c) {
            lex_from(s, i + 1)
        } else if is_digit(c) {
            let j = run_end(s, i, digit_class());
            prepend(
                (Lexeme::Number(literal_value(s.subrange(i, j))), Loc(i as usize, j as usize)),
                lex_from(s, j),
            )
        } else if is_lower(c) {
            let j = run_end(s, i, lower_class());
            prepend((Lexeme::Var(s.subrange(i, j)), Loc(i as usize, j as usize)), lex_from(s, j))
        } else if c == ':' {
            let j = run_end(s, i, bind_class());
            prepend((Lexeme::Bind, Loc(i as usize, j as usize)), lex_from(s, j))
        } else if single_lexeme(c) is Some {
            prepend((single_lexeme(c)->0, Loc(i as usize, (i + 1) as usize)), lex_from(s, i + 1))
        } else {
            Err(Annot { value: LexerErrorKind::InvalidChar(c), loc: Loc(i as usize, (i + 1) as usize) })
        }
    }
}

/// The tokens of `s`, or the first character that starts no token.
pub open spec fn lex(s: Seq<char>) -> Result<Seq<(Lexeme, Loc)>, LexerError> {
    lex_from(s, 0)
}

pub proof fn lemma_run_end_bounds(s: Seq<char>, i: int, p: spec_fn(char) -> bool)
    requires
        0 <= i <= s.len(),
    ensures
        i <= run_end(s, i, p) <= s.len(),
        i < s.len() && p(s[i]) ==> run_end(s, i, p) > i,
        forall|k: int| i <= k < run_end(s, i, p) ==> p(#[trigger] s[k]),
        run_end(s, i, p) < s.len() ==> !p(s[run_end(s, i, p)]),
    decreases s.len() - i,
{
    if i < s.len() && p(s[i]) {
        lemma_run_end_bounds(s, i + 1, p);
    }
}

/// A run of class `p` from `i` that stops at `j` ends at `j`.
proof fn lemma_run_end_at(s: Seq<char>, i: int, j: int, p: spec_fn(char) -> bool)
    requires
        0 <= i <= j <= s.len(),
        forall|k: int| i <= k < j ==> p(#[trigger] s[k]),
        j == s.len() || !p(s[j]),
    ensures
        run_end(s, i, p) == j,
    decreases j - i,
{
    if i < j {
        lemma_run_end_at(s, i + 1, j, p);
    }
}

/// The spans of a successful scan from `i`: each within the input and past
/// `i`, nonempty, in order without overlap; only blanks stand before the
/// first token and after the last, and the last ends on a character that is
/// not blank.
pub proof fn lemma_lex_from_spans(s: Seq<char>, i: int)
    requires
        0 <= i <= s.len(),
        s.len() < usize::MAX,
        lex_from(s, i) is Ok,
    ensures
        ({
            let v = lex_from(s, i)->Ok_0;
            &&& forall|k: int| 0 <= k < v.len() ==> i <= (#[trigger] v[k]).1.0 < v[k].1.1 <= s.len()
            &&& forall|a: int, b: int|
                0 <= a < b < v.len() ==> (#[trigger] v[a]).1.1 <= (#[trigger] v[b]).1.0
            &&& v.len() == 0 ==> forall|k: int| i <= k < s.len() ==> is_blank(#[trigger] s[k])
            &&& v.len() > 0 ==> {
                &&& forall|k: int| i <= k < v[0].1.0 ==> is_blank(#[trigger] s[k])
                &&& forall|k: int| v.last().1.1 <= k < s.len() ==> is_blank(#[trigger] s[k])
                &&& !is_blank(s[v.last().1.1 - 1])
            }
        }),
    decreases s.len() - i,
{
    if i < s.len() {
        lemma_run_end_bounds(s, i, digit_class());
        lemma_run_end_bounds(s, i, lower_class());
        lemma_run_end_bounds(s, i, bind_class());
        let c = s[i];
        let j = if is_blank(c) || !(is_digit(c) || is_lower(c) || c == ':') {
            i + 1
        } else if is_digit(c) {
            run_end(s, i, digit_class())
        } else if is_lower(c) {
            run_end(s, i, lower_class())
        } else {
            run_end(s, i, bind_class())
        };
        lemma_lex_from_spans(s, j);
        if !is_blank(c) {
            let w = lex_from(s, j)->Ok_0;
            let v = lex_from(s, i)->Ok_0;
            assert(v.drop_first() =~= w);
            assert(v[0].1 == Loc(i as usize, j as usize));
            assert(forall|k: int| i <= k < j ==> !is_blank(#[trigger] s[k]));
            assert forall|a: int, b: int| 0 <= a < b < v.len() implies (#[trigger] v[a]).1.1 <= (
            #[trigger] v[b]).1.0 by {
                if a > 0 {
                    assert(v[a] == w[a - 1] && v[b] == w[b - 1]);
                } else {
                    assert(v[b] == w[b - 1]);
                }
            }
            if w.len() > 0 {
                assert(v.last() == w.last());
            }
        }
    }
}

proof fn lemma_after_prepend(
    done: Seq<(Lexeme, Loc)>,
    t: (Lexeme, Loc),
    rest: Result<Seq<(Lexeme, Loc)>, LexerError>,
)
    ensures
        after(done, prepend(t, rest)) == after(done.push(t), rest),
{
    if let Ok(ts) = rest {
        assert(done + (seq![t] + ts) =~= done.push(t) + ts);
    }
}

proof fn lemma_tokens_view_push(ts: Seq<Token>, t: Token)
    ensures
        tokens_view(ts.push(t)) == tokens_view(ts).push(token_view(t)),
{
    assert(tokens_view(ts.push(t)) =~= tokens_view(ts).push(token_view(t)));
}

/// Pushes `t`, which covers the input from `start` to `pos`, where `rest` was
/// scanned from `start` and its tail from `pos`.
fn push_token(tokens: &mut Vec<Token>, t: Token, Ghost(s): Ghost<Seq<char>>, Ghost(start): Ghost<int>, Ghost(pos): Ghost<int>)
    requires
        lex(s) == after(tokens_view(old(tokens)@), lex_from(s, start)),
        lex_from(s, start) == prepend(token_view(t), lex_from(s, pos)),
    ensures
        final(tokens)@ == old(tokens)@.push(t),
        lex(s) == after(tokens_view(final(tokens)@), lex_from(s, pos)),
{
    proof {
        lemma_after_prepend(tokens_view(tokens@), token_view(t), lex_from(s, pos));
        lemma_tokens_view_push(tokens@, t);
    }
    tokens.push(t);
}

/// Splits `input` into tokens, left to right, skipping blanks; stops at the
/// first character that starts no token.
pub fn lexer(input: &str) -> (r: Result<Vec<Token>, LexerError>)
    ensures
        r matches Ok(ts) ==> lex(input@) == Ok::<_, LexerError>(tokens_view(ts@)),
        r matches Err(e) ==> lex(input@) == Err::<Seq<(Lexeme, Loc)>, _>(e),
{
    let mut cs: Vec<char> = Vec::new();
    for c in it: input.chars()
        invariant
            it.seq() == input@,
            cs@ == it.seq().take(it.index() as int),
    {
        cs.push(c);
    }
    let ghost s = input@;
    assert(cs@ =~= s);
    let n = cs.len();
    let mut tokens: Vec<Token> = Vec::new();
    let mut pos: usize = 0;
    assert(tokens_view(tokens@) =~= Seq::<(Lexeme, Loc)>::empty());
    assert(Seq::<(Lexeme, Loc)>::empty() + Seq::<(Lexeme, Loc)>::empty() =~= Seq::<(Lexeme, Loc)>::empty());
    while pos < n
        invariant
            cs@ == s,
            s == input@,
            n == cs.len(),
            pos <= n,
            lex(s) == after(tokens_view(tokens@), lex_from(s, pos as int)),
        decreases n - pos,
    {
        let c = cs[pos];
        let start = pos;
        proof {
            lemma_run_end_bounds(s, start as int, digit_class());
            lemma_run_end_bounds(s, start as int, lower_class());
            lemma_run_end_bounds(s, start as int, bind_class());
        }
        if c == ' ' || c == '\n' || c == '\t' {
            pos = pos + 1;
        } else if '0' <= c && c <= '9' {
            let mut value: u64 = 0;
            while pos < n && '0' <= cs[pos] && cs[pos] <= '9'
                invariant
                    cs@ == s,
                    n == cs.len(),
                    start <= pos <= n,
                    forall|k: int| start <= k < pos ==> is_digit(#[trigger] s[k]),
                    value == literal_value(s.subrange(start as int, pos as int)),
                decreases n - pos,
            {
                let d = (cs[pos] as u32 - '0' as u32) as u64;
                proof {
                    let ds = s.subrange(start as int, pos + 1);
                    assert(ds.drop_last() =~= s.subrange(start as int, pos as int));
                    lemma_literal_step(value, d);
                }
                value = value.wrapping_mul(10).wrapping_add(d);
                pos = pos + 1;
            }
            proof {
                lemma_run_end_at(s, start as int, pos as int, digit_class());
            }
            push_token(&mut tokens, Token::number(value, Loc(start, pos)), Ghost(s), Ghost(start as int), Ghost(pos as int));
        } else if 'a' <= c && c <= 'z' {
            while pos < n && 'a' <= cs[pos] && cs[pos] <= 'z'
                invariant
                    cs@ == s,
                    n == cs.len(),
                    start <= pos <= n,
                    forall|k: int| start <= k < pos ==> is_lower(#[trigger] s[k]),
                decreases n - pos,
            {
                pos = pos + 1;
            }
            proof {
                lemma_run_end_at(s, start as int, pos as int, lower_class());
            }
            let name = input.substring_char(start, pos);
            push_token(&mut tokens, Token::var(name, Loc(start, pos)), Ghost(s), Ghost(start as int), Ghost(pos as int));
        } else if c == ':' {
            while pos < n && (cs[pos] == ':' || cs[pos] == '=')
                invariant
                    cs@ == s,
                    n == cs.len(),
                    start <= pos <= n,
                    forall|k: int| start <= k < pos ==> is_bind_char(#[trigger] s[k]),
                decreases n - pos,
            {
                pos = pos + 1;
            }
            proof {
                lemma_run_end_at(s, start as int, pos as int, bind_class());
            }
            push_token(&mut tokens, Token::bind(Loc(start, pos)), Ghost(s), Ghost(start as int), Ghost(pos as int));
        } else {
            let loc = Loc(pos, pos + 1);
            let t = if c == '+' {
                Token::plus(loc)
            } else if c == '-' {
                Token::minus(loc)
            } else if c == '*' {
                Token::asterisk(loc)
            } else if c == '/' {
                Token::slash(loc)
            } else if c == '(' {
                Token::lparen(loc)
            } else if c == ')' {
                Token::rparen(loc)
            } else {
                return Err(LexerError::invalid_char(c, loc));
            };
            pos = pos + 1;
            push_token(&mut tokens, t, Ghost(s), Ghost(start as int), Ghost(pos as int));
        }
    }
    assert(tokens_view(tokens@) + Seq::<(Lexeme, Loc)>::empty() =~= tokens_view(tokens@));
    Ok(tokens)
}

proof fn lemma_literal_step(value: u64, d: u64)
    requires
        d < 10,
    ensures
        (value as int * 10 + d) % 0x1_0000_0000_0000_0000 == value.wrapping_mul(10).wrapping_add(d),
{
    let m: int = 0x1_0000_0000_0000_0000;
    let x = value as int * 10;
    vstd::arithmetic::div_mod::lemma_add_mod_noop(x, d as int, m);
    vstd::arithmetic::div_mod::lemma_small_mod(d as nat, m as nat);
    vstd::arithmetic::div_mod::lemma_mod_bound(x, m);
    let y = x % m + d;
    if y >= m {
        assert(y % m == y - m);
    } else {
        vstd::arithmetic::div_mod::lemma_small_mod(y as nat, m as nat);
    }
}

} // verus!
