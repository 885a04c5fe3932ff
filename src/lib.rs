//! Lexer and Pratt parser for a small expression language, verified with
//! Verus: tokens and syntax trees are specified by spec functions over the
//! input text, and the executable code is proved to compute them.
use vstd::prelude::*;

pub mod advanced_chars;
pub mod advanced_iter;
pub mod ast;
pub mod chars;
pub mod grammar;
pub mod lexer;
pub mod lexical;
pub mod parse_error;
pub mod parser;
pub mod token;

pub use advanced_chars::AdvancedChars;
pub use advanced_iter::AdvancedIter;
pub use ast::{
    Expression, ExpressionStmt, InfixExpression, LetStmt, PrefixExpression, Program, ReturnStmt,
    Statement,
};
pub use chars::{is_digit, is_letter, is_linebreak, is_start_of_number, is_whitespace};
pub use lexer::{lex, Lexer};
pub use parse_error::{IntErrorKind, ParseError};
pub use parser::{parse, Parser};
pub use token::Token;

verus! {

} // verus!
