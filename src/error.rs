use vstd::prelude::*;
use vstd::string::{StrSliceExecFns, StringExecFns};
use crate::ast::{is_stmt, Ast};
use crate::interp::{interpreter_error_text, run, Interpreter, InterpreterError, Value};
use crate::lexer::{lex, lexer, lexer_error_text, LexerError};
use crate::loc::Loc;
use crate::parser::{parse, parser, parser_error_text, ParserError};
use crate::text::{push_char, repeated};
use crate::token::{tokens_view, Token};

verus! {

/// An error of any stage, as that stage reported it.
#[derive(Debug, PartialEq)]
pub enum Error {
    Lexer(LexerError),
    Parser(ParserError),
    Interpreter(InterpreterError),
}

impl From<LexerError> for Error {
    fn from(e: LexerError) -> (r: Self) {
        Error::Lexer(e)
    }
}

impl vstd::std_specs::convert::FromSpecImpl<LexerError> for Error {
    open spec fn obeys_from_spec() -> bool {
        true
    }

    open spec fn from_spec(e: LexerError) -> Self {
        Error::Lexer(e)
    }
}

impl From<ParserError> for Error {
    fn from(e: ParserError) -> (r: Self) {
        Error::Parser(e)
    }
}

impl vstd::std_specs::convert::FromSpecImpl<ParserError> for Error {
    open spec fn obeys_from_spec() -> bool {
        true
    }

    open spec fn from_spec(e: ParserError) -> Self {
        Error::Parser(e)
    }
}

impl From<InterpreterError> for Error {
    fn from(e: InterpreterError) -> (r: Self) {
        Error::Interpreter(e)
    }
}

impl vstd::std_specs::convert::FromSpecImpl<InterpreterError> for Error {
    open spec fn obeys_from_spec() -> bool {
        true
    }

    open spec fn from_spec(e: InterpreterError) -> Self {
        Error::Interpreter(e)
    }
}

/// The message of the error itself: the stage that failed.
pub open spec fn error_text(e: Error) -> Seq<char> {
    match e {
        Error::Lexer(_) => "lexer error"@,
        Error::Parser(_) => "parser error"@,
        Error::Interpreter(_) => "interpreter error"@,
    }
}

/// The message of the underlying error of the stage.
pub open spec fn cause_text(e: Error) -> Seq<char> {
    match e {
        Error::Lexer(x) => lexer_error_text(x),
        Error::Parser(x) => parser_error_text(x),
        Error::Interpreter(x) => interpreter_error_text(x),
    }
}

/// The span that a diagnostic underlines, in an input of `len` characters:
/// the offending token or character; from a redundant token to the end of
/// the input; the place just past the end for a premature end.
pub open spec fn diagnostic_loc(e: Error, len: nat) -> Loc {
    match e {
        Error::Lexer(x) => x.loc,
        Error::Parser(p) => match p {
            ParserError::UnexpectedToken(tok) => tok.loc,
            ParserError::NotExpression(tok) => tok.loc,
            ParserError::NotOperator(tok) => tok.loc,
            ParserError::UnclosedOpenParen(tok) => tok.loc,
            ParserError::RedundantExpression(tok) => Loc(tok.loc.0, len as usize),
            ParserError::Eof => Loc(len as usize, (len + 1) as usize),
        },
        Error::Interpreter(x) => x.loc,
    }
}

/// The line under the input that marks `loc`: blanks up to its start, then
/// one caret per character it covers.
pub open spec fn caret_text(loc: Loc) -> Seq<char> {
    repeated(' ', loc.0 as nat) + repeated('^', if loc.1 >= loc.0 { (loc.1 - loc.0) as nat } else { 0 })
}

/// The line that marks `loc` under the input: blanks up to its start, then
/// a caret under each character it covers.
pub fn caret_line(loc: Loc) -> (r: String)
    ensures
        r@ == caret_text(loc),
{
    let mut out = String::new();
    let mut i: usize = 0;
    while i < loc.0
        invariant
            i <= loc.0,
            out@ == repeated(' ', i as nat),
        decreases loc.0 - i,
    {
        push_char(&mut out, ' ');
        i = i + 1;
        assert(out@ =~= repeated(' ', i as nat));
    }
    let mut j: usize = loc.0;
    while j < loc.1
        invariant
            loc.0 <= j,
            j <= loc.1 || j == loc.0,
            out@ == repeated(' ', loc.0 as nat) + repeated('^', (j - loc.0) as nat),
        decreases loc.1 - j,
    {
        push_char(&mut out, '^');
        j = j + 1;
        assert(out@ =~= repeated(' ', loc.0 as nat) + repeated('^', (j - loc.0) as nat));
    }
    assert(out@ =~= caret_text(loc));
    out
}

impl Error {
    /// The message of the error itself: the stage that failed.
    pub fn message(&self) -> (r: String)
        ensures
            r@ == error_text(*self),
    {
        match self {
            Error::Lexer(_) => String::from_str("lexer error"),
            Error::Parser(_) => String::from_str("parser error"),
            Error::Interpreter(_) => String::from_str("interpreter error"),
        }
    }

    /// The message of the stage's own error, which this one wraps.
    pub fn cause_message(&self) -> (r: String)
        ensures
            r@ == cause_text(*self),
    {
        match self {
            Error::Lexer(e) => e.message(),
            Error::Parser(e) => e.message(),
            Error::Interpreter(e) => e.message(),
        }
    }

    /// The chain of causes, outermost first: this error, then the stage's own
    /// error prefixed with `caused by `.
    pub fn trace(&self) -> (r: Vec<String>)
        ensures
            r@.len() == 2,
            r@[0]@ == error_text(*self),
            r@[1]@ == "caused by "@ + cause_text(*self),
    {
        let mut lines: Vec<String> = Vec::new();
        lines.push(self.message());
        let mut cause = String::from_str("caused by ");
        let m = self.cause_message();
        cause.append(m.as_str());
        lines.push(cause);
        lines
    }

    /// The span that a diagnostic of this error underlines in `input`.
    pub fn diagnostic_loc(&self, input: &str) -> (r: Loc)
        requires
            input@.len() < usize::MAX,
        ensures
            r == diagnostic_loc(*self, input@.len()),
    {
        let len = input.unicode_len();
        match self {
            Error::Lexer(e) => e.loc,
            Error::Parser(p) => match p {
                ParserError::UnexpectedToken(tok) => tok.loc,
                ParserError::NotExpression(tok) => tok.loc,
                ParserError::NotOperator(tok) => tok.loc,
                ParserError::UnclosedOpenParen(tok) => tok.loc,
                ParserError::RedundantExpression(tok) => Loc(tok.loc.0, len),
                ParserError::Eof => Loc(len, len + 1),
            },
            Error::Interpreter(e) => e.loc,
        }
    }

    /// The diagnostic of the error on `input`, line by line: the input, the
    /// caret line under the offending span, and the stage's own message.
    pub fn diagnostic(&self, input: &str) -> (r: Vec<String>)
        requires
            input@.len() < usize::MAX,
        ensures
            r@.len() == 3,
            r@[0]@ == input@,
            r@[1]@ == caret_text(diagnostic_loc(*self, input@.len())),
            r@[2]@ == cause_text(*self),
    {
        let mut lines: Vec<String> = Vec::new();
        lines.push(String::from_str(input));
        let loc = self.diagnostic_loc(input);
        lines.push(caret_line(loc));
        lines.push(self.cause_message());
        lines
    }
}

/// A parser result as a result of any stage.
pub open spec fn parser_result(p: Result<Ast, ParserError>) -> Result<Ast, Error> {
    match p {
        Ok(a) => Ok(a),
        Err(e) => Err(Error::Parser(e)),
    }
}

/// The statement that the tokens of `s` make, or the first error.
pub open spec fn source_result(s: Seq<char>, r: Result<Ast, Error>) -> bool {
    match lex(s) {
        Err(e) => r == Err::<Ast, Error>(Error::Lexer(e)),
        Ok(tv) => exists|ts: Seq<Token>| tokens_view(ts) == tv && r == parser_result(#[trigger] parse(ts)),
    }
}

impl Ast {
    /// Tokenizes and parses one statement.
    pub fn from_source(s: &str) -> (r: Result<Ast, Error>)
        ensures
            source_result(s@, r),
            r matches Ok(a) ==> is_stmt(a),
    {
        let tokens = match lexer(s) {
            Ok(ts) => ts,
            Err(e) => return Err(Error::Lexer(e)),
        };
        let ghost ts = tokens@;
        match parser(tokens) {
            Ok(a) => Ok(a),
            Err(e) => Err(Error::Parser(e)),
        }
    }
}

impl std::str::FromStr for Ast {
    type Err = Error;

    fn from_str(s: &str) -> Result<Ast, Error> {
        Ast::from_source(s)
    }
}

impl Interpreter {
    /// Tokenizes, parses and evaluates one line in this session. The
    /// bindings change only where a binding statement succeeds.
    pub fn run_line(&mut self, line: &str) -> (r: Result<Value, Error>)
        requires
            old(self).wf(),
        ensures
            final(self).wf(),
            match lex(line@) {
                Err(e) => r == Err::<Value, Error>(Error::Lexer(e)) && final(self).env() == old(self).env(),
                Ok(tv) => exists|ts: Seq<Token>|
                    tokens_view(ts) == tv && match #[trigger] parse(ts) {
                        Err(e) => r == Err::<Value, Error>(Error::Parser(e)) && final(self).env()
                            == old(self).env(),
                        Ok(a) => final(self).env() == run(a, old(self).env()).1 && match run(
                            a,
                            old(self).env(),
                        ).0 {
                            Ok(v) => r == Ok::<Value, Error>(v),
                            Err(e) => r == Err::<Value, Error>(Error::Interpreter(e)),
                        },
                    },
            },
    {
        let tokens = match lexer(line) {
            Ok(ts) => ts,
            Err(e) => return Err(Error::Lexer(e)),
        };
        let ghost ts = tokens@;
        let ast = match parser(tokens) {
            Ok(a) => a,
            Err(e) => return Err(Error::Parser(e)),
        };
        match self.eval(&ast) {
            Ok(v) => Ok(v),
            Err(e) => Err(Error::Interpreter(e)),
        }
    }
}

} // verus!
