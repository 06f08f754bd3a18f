//! A small JSON-like lexer and recursive-descent parser with verified contracts.
//!
//! Text goes through [`Lexer::scan_tokens`], which gives a sequence of tokens
//! that ends in the end marker, and the tokens go through [`Parser::parse`],
//! which gives one [`Value`]. Neither step fails: what is wrong with the input
//! is recorded as [`Diagnostic`]s, and the work goes on.

pub mod chars;
pub mod diagnostic;
pub mod document;
pub mod grammar;
pub mod laws;
pub mod lexer;
pub mod lexing;
pub mod number;
pub mod parser;
pub mod parsing;
pub mod text;
pub mod token;
pub mod value;

pub use diagnostic::Diagnostic;
pub use document::{read_document, Reading};
pub use lexer::Lexer;
pub use parser::Parser;
pub use token::{Token, TokenType};
pub use value::Value;
