//! What the lexer computes, stated on sequences of characters.
//!
//! [`lex`] gives, for a whole text, the tokens and the diagnostics in the order
//! in which the lexer produces them. It is built from [`lex_step`], which says
//! what happens at one position of the text.

use vstd::prelude::*;
use crate::chars::{is_alpha, is_alphanumeric, is_digit};
use crate::diagnostic::Diagnostic;
use crate::token::{eof_token, TokenType, TokenView};
use crate::value::ValueView;

verus! {

/// The classes of characters that the lexer consumes in runs.
pub enum CharClass {
    /// ASCII decimal digits.
    Digit,
    /// ASCII letters and digits.
    Alphanumeric,
}

/// Whether `c` belongs to `class`.
pub open spec fn in_class(class: CharClass, c: char) -> bool {
    match class {
        CharClass::Digit => is_digit(c),
        CharClass::Alphanumeric => is_alphanumeric(c),
    }
}

/// The end of the longest run of characters of `class` that starts at `pos`:
/// the first position from `pos` on that holds no character of the class, or
/// the length of the text.
pub open spec fn run_end(src: Seq<char>, pos: int, class: CharClass) -> int
    decreases src.len() - pos,
{
    if 0 <= pos < src.len() && in_class(class, src[pos]) {
        run_end(src, pos + 1, class)
    } else {
        pos
    }
}

/// Where the string literal that is being read at `pos` ends: the position of
/// the first double quote from `pos` on that no backslash escapes, or the
/// length of the text if there is none. A backslash escapes the character
/// after it, whatever that character is, so the two are passed over together;
/// a backslash that is the last character of the text escapes nothing.
pub open spec fn string_end(src: Seq<char>, pos: int) -> int
    decreases src.len() - pos,
{
    if 0 <= pos < src.len() {
        if src[pos] == '"' {
            pos
        } else if src[pos] == '\\' && pos + 1 < src.len() {
            string_end(src, pos + 2)
        } else {
            string_end(src, pos + 1)
        }
    } else {
        pos
    }
}

/// The number that a sequence of decimal digits denotes.
pub open spec fn digits_value(digits: Seq<char>) -> nat
    decreases digits.len(),
{
    if digits.len() == 0 {
        0
    } else {
        (digits_value(digits.drop_last()) * 10 + (digits.last() as int - '0' as int)) as nat
    }
}

/// The number of line feeds in `text`.
pub open spec fn line_feeds(text: Seq<char>) -> nat
    decreases text.len(),
{
    if text.len() == 0 {
        0
    } else {
        line_feeds(text.drop_last()) + if text.last() == '\n' {
            1nat
        } else {
            0nat
        }
    }
}

/// The token kind of a one-character structural marker.
pub open spec fn structural(c: char) -> Option<TokenType> {
    if c == '{' {
        Some(TokenType::LeftCurlyBracket)
    } else if c == '}' {
        Some(TokenType::RightCurlyBracket)
    } else if c == '[' {
        Some(TokenType::LeftSquareBracket)
    } else if c == ']' {
        Some(TokenType::RightSquareBracket)
    } else if c == ':' {
        Some(TokenType::Colon)
    } else if c == ',' {
        Some(TokenType::Comma)
    } else {
        None
    }
}

/// Whether `c` is white space that the lexer skips.
pub open spec fn is_blank(c: char) -> bool {
    c == ' ' || c == '\r' || c == '\t' || c == '\n'
}

/// The token kind of a keyword, if `word` is one of the three keywords.
pub open spec fn keyword(word: Seq<char>) -> Option<TokenType> {
    if word == seq!['n', 'u', 'l', 'l'] {
        Some(TokenType::Null)
    } else if word == seq!['t', 'r', 'u', 'e'] {
        Some(TokenType::True)
    } else if word == seq!['f', 'a', 'l', 's', 'e'] {
        Some(TokenType::False)
    } else {
        None
    }
}

/// What the lexer does at one position: where it goes on, and the token and
/// the diagnostic it produces there, if any.
pub struct Step {
    pub next: int,
    pub token: Option<TokenView>,
    pub diagnostic: Option<Diagnostic>,
}

/// The step of the lexer at `pos`, for `0 <= pos < src.len()`.
pub open spec fn lex_step(src: Seq<char>, pos: int) -> Step {
    let c = src[pos];
    if structural(c) is Some {
        Step {
            next: pos + 1,
            token: Some(
                TokenView {
                    kind: structural(c)->0,
                    lexeme: src.subrange(pos, pos + 1),
                    literal: ValueView::Null,
                },
            ),
            diagnostic: None,
        }
    } else if is_blank(c) {
        Step { next: pos + 1, token: None, diagnostic: None }
    } else if c == '"' {
        let close = string_end(src, pos + 1);
        if close >= src.len() {
            Step {
                next: src.len() as int,
                token: None,
                diagnostic: Some(Diagnostic::UnterminatedString),
            }
        } else {
            Step {
                next: close + 1,
                token: Some(
                    TokenView {
                        kind: TokenType::String,
                        lexeme: src.subrange(pos, close + 1),
                        literal: ValueView::String(src.subrange(pos + 1, close)),
                    },
                ),
                diagnostic: None,
            }
        }
    } else if is_digit(c) {
        let end = run_end(src, pos + 1, CharClass::Digit);
        let text = src.subrange(pos, end);
        if digits_value(text) <= i32::MAX {
            Step {
                next: end,
                token: Some(
                    TokenView {
                        kind: TokenType::Number,
                        lexeme: text,
                        literal: ValueView::Number(digits_value(text) as int),
                    },
                ),
                diagnostic: None,
            }
        } else {
            Step { next: end, token: None, diagnostic: Some(Diagnostic::NumberOutOfRange) }
        }
    } else if is_alpha(c) {
        let end = run_end(src, pos + 1, CharClass::Alphanumeric);
        let text = src.subrange(pos, end);
        match keyword(text) {
            Some(kind) => Step {
                next: end,
                token: Some(TokenView { kind, lexeme: text, literal: ValueView::Null }),
                diagnostic: None,
            },
            None => Step { next: end, token: None, diagnostic: Some(Diagnostic::UnknownWord) },
        }
    } else {
        Step { next: pos + 1, token: None, diagnostic: Some(Diagnostic::UnexpectedCharacter) }
    }
}

/// The sequence that holds `x` if there is one, and nothing otherwise.
pub open spec fn optional<T>(x: Option<T>) -> Seq<T> {
    match x {
        Some(v) => seq![v],
        None => Seq::empty(),
    }
}

/// The result of lexing: the tokens and the diagnostics, each in source order.
pub struct Lexed {
    pub tokens: Seq<TokenView>,
    pub diagnostics: Seq<Diagnostic>,
}

/// A run ends between its start and the end of the text.
pub proof fn lemma_run_end_bounds(src: Seq<char>, pos: int, class: CharClass)
    requires
        0 <= pos <= src.len(),
    ensures
        pos <= run_end(src, pos, class) <= src.len(),
    decreases src.len() - pos,
{
    if pos < src.len() && in_class(class, src[pos]) {
        lemma_run_end_bounds(src, pos + 1, class);
    }
}

/// A run is as long as it can be: every character in it belongs to the
/// class, and the character right after it, if there is one, does not.
pub proof fn lemma_run_is_maximal(src: Seq<char>, pos: int, class: CharClass)
    requires
        0 <= pos <= src.len(),
    ensures
        forall|i: int| pos <= i < run_end(src, pos, class) ==> in_class(class, #[trigger] src[i]),
        run_end(src, pos, class) < src.len() ==> !in_class(
            class,
            src[run_end(src, pos, class)],
        ),
    decreases src.len() - pos,
{
    if pos < src.len() && in_class(class, src[pos]) {
        lemma_run_is_maximal(src, pos + 1, class);
    }
}

/// A string literal ends between the position it is read from and the end of
/// the text, and where it ends inside the text there is a double quote.
pub proof fn lemma_string_end_bounds(src: Seq<char>, pos: int)
    requires
        0 <= pos <= src.len(),
    ensures
        pos <= string_end(src, pos) <= src.len(),
        string_end(src, pos) < src.len() ==> src[string_end(src, pos)] == '"',
    decreases src.len() - pos,
{
    if pos < src.len() && src[pos] != '"' {
        if src[pos] == '\\' && pos + 1 < src.len() {
            lemma_string_end_bounds(src, pos + 2);
        } else {
            lemma_string_end_bounds(src, pos + 1);
        }
    }
}

/// Where no backslash stands before it, the first double quote ends the
/// string.
pub proof fn lemma_plain_string_ends_at_first_quote(src: Seq<char>, pos: int, quote: int)
    requires
        0 <= pos <= quote < src.len(),
        src[quote] == '"',
        forall|i: int| pos <= i < quote ==> src[i] != '"' && src[i] != '\\',
    ensures
        string_end(src, pos) == quote,
    decreases quote - pos,
{
    if pos < quote {
        lemma_plain_string_ends_at_first_quote(src, pos + 1, quote);
    }
}

/// Every step moves forward and stays inside the text.
pub proof fn lemma_step_advances(src: Seq<char>, pos: int)
    requires
        0 <= pos < src.len(),
    ensures
        pos < lex_step(src, pos).next <= src.len(),
{
    lemma_string_end_bounds(src, pos + 1);
    lemma_run_end_bounds(src, pos + 1, CharClass::Digit);
    lemma_run_end_bounds(src, pos + 1, CharClass::Alphanumeric);
}

/// What lexing produces from position `pos` to the end of the text, the end
/// marker included.
pub open spec fn lex_from(src: Seq<char>, pos: int) -> Lexed
    decreases src.len() - pos,
{
    if 0 <= pos < src.len() {
        let step = lex_step(src, pos);
        proof {
            lemma_step_advances(src, pos);
        }
        let rest = lex_from(src, step.next);
        Lexed {
            tokens: optional(step.token) + rest.tokens,
            diagnostics: optional(step.diagnostic) + rest.diagnostics,
        }
    } else {
        Lexed { tokens: seq![eof_token()], diagnostics: Seq::empty() }
    }
}

/// What lexing produces for the whole text.
pub open spec fn lex(src: Seq<char>) -> Lexed {
    lex_from(src, 0)
}

} // verus!
