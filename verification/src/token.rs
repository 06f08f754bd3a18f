//! Tokens: what the lexer produces and the parser consumes.

use vstd::prelude::*;
use crate::value::{Value, ValueView};

verus! {

/// The closed set of token kinds.
#[derive(PartialEq, Eq, Structural, Debug, Clone, Copy)]
pub enum TokenType {
    LeftCurlyBracket,
    RightCurlyBracket,
    Colon,
    Comma,
    LeftSquareBracket,
    RightSquareBracket,
    String,
    Number,
    Null,
    True,
    False,
    Eof,
}

/// A token: its kind, the source text it was read from, and the value it
/// carries. Only `String` and `Number` tokens carry a value other than
/// `Value::Null`.
pub struct Token {
    pub token_type: TokenType,
    pub lexeme: String,
    pub literal: Value,
}

/// The mathematical content of a [`Token`].
pub struct TokenView {
    pub kind: TokenType,
    pub lexeme: Seq<char>,
    pub literal: ValueView,
}

impl View for Token {
    type V = TokenView;

    open spec fn view(&self) -> TokenView {
        TokenView { kind: self.token_type, lexeme: self.lexeme@, literal: self.literal@ }
    }
}

/// The views of a sequence of tokens, in order.
pub open spec fn token_views(tokens: Seq<Token>) -> Seq<TokenView> {
    Seq::new(tokens.len(), |i: int| tokens[i]@)
}

/// The token that marks the end of the input.
pub open spec fn eof_token() -> TokenView {
    TokenView { kind: TokenType::Eof, lexeme: Seq::empty(), literal: ValueView::Null }
}

/// Appending a token appends its view.
pub proof fn lemma_token_views_push(tokens: Seq<Token>, token: Token)
    ensures
        token_views(tokens.push(token)) == token_views(tokens).push(token@),
{
}

} // verus!
