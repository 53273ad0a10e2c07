//! An evaluator for arithmetic expressions: a lexer, a recursive-descent
//! parser and a tree-walking interpreter, all of which keep the source span
//! of what they produce so that errors can point at the offending text.

pub mod ast;
pub mod error;
pub mod interp;
pub mod lexer;
pub mod loc;
pub mod parser;
pub mod text;
pub mod token;

pub use ast::{Ast, AstKind, BinOp, BinOpKind, UniOp, UniOpKind};
pub use error::{caret_line, Error};
pub use interp::{Interpreter, InterpreterError, InterpreterErrorKind, Value};
pub use lexer::{lexer, LexerError, LexerErrorKind};
pub use loc::{Annot, Loc};
pub use parser::{parser, ParserError};
pub use token::{Lexeme, Token, TokenKind};
