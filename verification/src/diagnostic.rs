//! The diagnostics that lexing and parsing report.

use vstd::prelude::*;
use vstd::string::StringExecFns;

verus! {

/// What went wrong. Nothing here stops the lexer or the parser: each
/// diagnostic is recorded and the work goes on.
#[derive(PartialEq, Eq, Structural, Debug, Clone, Copy)]
pub enum Diagnostic {
    /// A character that starts no token.
    UnexpectedCharacter,
    /// The input ended inside a string literal.
    UnterminatedString,
    /// A word that is none of `null`, `true`, `false`.
    UnknownWord,
    /// A run of digits whose value does not fit the number type.
    NumberOutOfRange,
    /// No value starts at the current token.
    UnrecognizedValue,
    /// A `String` token in key position that carries no string.
    MalformedKey,
    /// An object that is not closed by `}`.
    UnclosedCurlyBrackets,
    /// An array that is not closed by `]`.
    UnclosedSquareBrackets,
    /// A comma directly before the place where a bracket should close.
    UnexpectedComma,
}

impl Diagnostic {
    /// Whether the lexer reports this diagnostic; the others are the parser's.
    pub open spec fn is_lexical(self) -> bool {
        self == Diagnostic::UnexpectedCharacter || self == Diagnostic::UnterminatedString
            || self == Diagnostic::UnknownWord || self == Diagnostic::NumberOutOfRange
    }

    /// The text of the message.
    pub open spec fn message_text(self) -> Seq<char> {
        match self {
            Diagnostic::UnexpectedCharacter => "Unexpected character"@,
            Diagnostic::UnterminatedString => "Unterminated string."@,
            Diagnostic::UnknownWord => "Unexpected character."@,
            Diagnostic::NumberOutOfRange => "Number out of range."@,
            Diagnostic::UnrecognizedValue => "Unrecognized value"@,
            Diagnostic::MalformedKey => "Something went wrong."@,
            Diagnostic::UnclosedCurlyBrackets => "Unclosed curly brackets."@,
            Diagnostic::UnclosedSquareBrackets => "Unclosed square brackets."@,
            Diagnostic::UnexpectedComma => "Unexpected comma."@,
        }
    }

    /// The human-readable message for this diagnostic.
    pub fn message(&self) -> (text: String)
        ensures
            text@ == self.message_text(),
    {
        match self {
            Diagnostic::UnexpectedCharacter => String::from_str("Unexpected character"),
            Diagnostic::UnterminatedString => String::from_str("Unterminated string."),
            Diagnostic::UnknownWord => String::from_str("Unexpected character."),
            Diagnostic::NumberOutOfRange => String::from_str("Number out of range."),
            Diagnostic::UnrecognizedValue => String::from_str("Unrecognized value"),
            Diagnostic::MalformedKey => String::from_str("Something went wrong."),
            Diagnostic::UnclosedCurlyBrackets => String::from_str("Unclosed curly brackets."),
            Diagnostic::UnclosedSquareBrackets => String::from_str("Unclosed square brackets."),
            Diagnostic::UnexpectedComma => String::from_str("Unexpected comma."),
        }
    }
}

} // verus!
