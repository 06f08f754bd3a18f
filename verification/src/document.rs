//! Reading a whole text: lexing, then parsing what lexing gave.

use vstd::prelude::*;
use crate::diagnostic::Diagnostic;
use crate::lexer::Lexer;
use crate::lexing::lex;
use crate::parser::Parser;
use crate::parsing::parse_document;
use crate::value::{Value, ValueView};

verus! {

/// What reading a text gives: the value of the document, and what the lexer
/// and the parser reported on the way.
pub struct Reading {
    pub value: Value,
    pub lexical: Vec<Diagnostic>,
    pub syntactic: Vec<Diagnostic>,
}

/// The mathematical content of a [`Reading`].
pub struct ReadingView {
    pub value: ValueView,
    pub lexical: Seq<Diagnostic>,
    pub syntactic: Seq<Diagnostic>,
}

impl View for Reading {
    type V = ReadingView;

    open spec fn view(&self) -> ReadingView {
        ReadingView { value: self.value@, lexical: self.lexical@, syntactic: self.syntactic@ }
    }
}

impl Reading {
    /// Whether the lexer or the parser reported anything. A value read with
    /// an error may hold placeholders: an empty object can be a document or
    /// what is left of a broken one, and only this flag tells them apart.
    pub fn has_error(&self) -> (flag: bool)
        ensures
            flag == (self@.lexical.len() > 0 || self@.syntactic.len() > 0),
    {
        self.lexical.len() > 0 || self.syntactic.len() > 0
    }
}

/// What reading `src` gives: the text is lexed, and the tokens are parsed as
/// one document.
pub open spec fn read(src: Seq<char>) -> ReadingView {
    let lexed = lex(src);
    let parsed = parse_document(lexed.tokens);
    ReadingView {
        value: parsed.value,
        lexical: lexed.diagnostics,
        syntactic: parsed.diagnostics,
    }
}

/// Reads `text` as one document.
pub fn read_document(text: String) -> (reading: Reading)
    ensures
        reading@ == read(text@),
{
    let mut lexer = Lexer::new(text);
    lexer.scan_tokens();
    let mut parser = Parser::new(lexer.tokens());
    let value = parser.parse();
    let syntactic = parser.into_diagnostics();
    let lexical = lexer.into_diagnostics();
    Reading { value, lexical, syntactic }
}

} // verus!
