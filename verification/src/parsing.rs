//! What the parser computes, stated on sequences of tokens.
//!
//! The functions here follow the parser rule by rule. Each takes the tokens and
//! the position of the next token, and gives the value built, the position
//! after it and the diagnostics reported on the way. A position at or past the
//! end of the sequence reads as the end marker.

use vstd::prelude::*;
use crate::diagnostic::Diagnostic;
use crate::token::{TokenType, TokenView};
use crate::value::{MemberView, ValueView};

verus! {

/// The kind of the token at `pos`; beyond the tokens, the end marker.
pub open spec fn kind_at(tokens: Seq<TokenView>, pos: int) -> TokenType {
    if 0 <= pos < tokens.len() {
        tokens[pos].kind
    } else {
        TokenType::Eof
    }
}

/// The result of parsing one value.
pub struct Parsed {
    pub value: ValueView,
    pub next: int,
    pub diagnostics: Seq<Diagnostic>,
}

/// The result of parsing the items of an array.
pub struct ParsedItems {
    pub items: Seq<ValueView>,
    pub next: int,
    pub diagnostics: Seq<Diagnostic>,
}

/// The result of parsing the members of an object.
pub struct ParsedMembers {
    pub members: Seq<MemberView>,
    pub next: int,
    pub diagnostics: Seq<Diagnostic>,
}

/// The key that a token in key position gives: the string it carries, or the
/// empty string if it carries none.
pub open spec fn key_of(token: TokenView) -> Seq<char> {
    match token.literal {
        ValueView::String(s) => s,
        _ => Seq::empty(),
    }
}

/// The diagnostic for a token in key position: none if it carries a string.
pub open spec fn key_diagnostics(token: TokenView) -> Seq<Diagnostic> {
    match token.literal {
        ValueView::String(_) => Seq::empty(),
        _ => seq![Diagnostic::MalformedKey],
    }
}

/// The position after an optional comma at `pos`.
pub open spec fn skip_comma(tokens: Seq<TokenView>, pos: int) -> int {
    if kind_at(tokens, pos) == TokenType::Comma {
        pos + 1
    } else {
        pos
    }
}

/// The rule `document`: an object if the next token is `{`, else a value.
pub open spec fn parse_expression(tokens: Seq<TokenView>, pos: int) -> Parsed
    decreases tokens.len() - pos, 2int,
{
    if kind_at(tokens, pos) == TokenType::LeftCurlyBracket {
        parse_object(tokens, pos + 1)
    } else {
        parse_value(tokens, pos)
    }
}

/// The rule `value` without objects: a keyword, a number, a string or an
/// array. Any other token gives `Null` and a diagnostic, and is not consumed.
pub open spec fn parse_value(tokens: Seq<TokenView>, pos: int) -> Parsed
    decreases tokens.len() - pos, 1int,
{
    match kind_at(tokens, pos) {
        TokenType::False => Parsed {
            value: ValueView::Bool(false),
            next: pos + 1,
            diagnostics: Seq::empty(),
        },
        TokenType::True => Parsed {
            value: ValueView::Bool(true),
            next: pos + 1,
            diagnostics: Seq::empty(),
        },
        TokenType::Number => Parsed {
            value: tokens[pos].literal,
            next: pos + 1,
            diagnostics: Seq::empty(),
        },
        TokenType::String => Parsed {
            value: tokens[pos].literal,
            next: pos + 1,
            diagnostics: Seq::empty(),
        },
        TokenType::Null => Parsed {
            value: ValueView::Null,
            next: pos + 1,
            diagnostics: Seq::empty(),
        },
        TokenType::LeftSquareBracket => parse_array(tokens, pos + 1),
        _ => Parsed {
            value: ValueView::Null,
            next: pos,
            diagnostics: seq![Diagnostic::UnrecognizedValue],
        },
    }
}

/// The rest of the rule `object`, from the token after `{`. After the
/// members, a comma just before is an error, and so is anything but `}`; both
/// give the empty object.
pub open spec fn parse_object(tokens: Seq<TokenView>, pos: int) -> Parsed
    decreases tokens.len() - pos, 4int,
{
    let body = parse_members(tokens, pos);
    if kind_at(tokens, body.next - 1) == TokenType::Comma {
        Parsed {
            value: ValueView::Object(Seq::empty()),
            next: body.next,
            diagnostics: body.diagnostics.push(Diagnostic::UnexpectedComma),
        }
    } else if kind_at(tokens, body.next) == TokenType::RightCurlyBracket {
        Parsed {
            value: ValueView::Object(body.members),
            next: body.next + 1,
            diagnostics: body.diagnostics,
        }
    } else {
        Parsed {
            value: ValueView::Object(Seq::empty()),
            next: body.next,
            diagnostics: body.diagnostics.push(Diagnostic::UnclosedCurlyBrackets),
        }
    }
}

/// The members of an object: as long as a `String` token is directly followed
/// by a colon, a key, a value and an optional comma.
pub open spec fn parse_members(tokens: Seq<TokenView>, pos: int) -> ParsedMembers
    decreases tokens.len() - pos, 3int,
{
    if kind_at(tokens, pos) == TokenType::String && kind_at(tokens, pos + 1) == TokenType::Colon {
        let member = parse_expression(tokens, pos + 2);
        let first = MemberView { key: key_of(tokens[pos]), value: member.value };
        let told = key_diagnostics(tokens[pos]) + member.diagnostics;
        let after = skip_comma(tokens, member.next);
        if pos < after <= tokens.len() {
            let rest = parse_members(tokens, after);
            ParsedMembers {
                members: seq![first] + rest.members,
                next: rest.next,
                diagnostics: told + rest.diagnostics,
            }
        } else {
            ParsedMembers { members: seq![first], next: after, diagnostics: told }
        }
    } else {
        ParsedMembers { members: Seq::empty(), next: pos, diagnostics: Seq::empty() }
    }
}

/// The rest of the rule `array`, from the token after `[`. After the items,
/// a comma just before is an error, and so is anything but `]`; both give the
/// empty array.
pub open spec fn parse_array(tokens: Seq<TokenView>, pos: int) -> Parsed
    decreases tokens.len() - pos, 4int,
{
    let body = parse_items(tokens, pos);
    if kind_at(tokens, body.next - 1) == TokenType::Comma {
        Parsed {
            value: ValueView::Array(Seq::empty()),
            next: body.next,
            diagnostics: body.diagnostics.push(Diagnostic::UnexpectedComma),
        }
    } else if kind_at(tokens, body.next) == TokenType::RightSquareBracket {
        Parsed {
            value: ValueView::Array(body.items),
            next: body.next + 1,
            diagnostics: body.diagnostics,
        }
    } else {
        Parsed {
            value: ValueView::Array(Seq::empty()),
            next: body.next,
            diagnostics: body.diagnostics.push(Diagnostic::UnclosedSquareBrackets),
        }
    }
}

/// The items of an array: until `]` or the end marker, a value and an
/// optional comma. An item that consumes nothing ends the items.
pub open spec fn parse_items(tokens: Seq<TokenView>, pos: int) -> ParsedItems
    decreases tokens.len() - pos, 3int,
{
    if kind_at(tokens, pos) != TokenType::RightSquareBracket && kind_at(tokens, pos)
        != TokenType::Eof {
        let item = parse_expression(tokens, pos);
        let after = skip_comma(tokens, item.next);
        if pos < after <= tokens.len() {
            let rest = parse_items(tokens, after);
            ParsedItems {
                items: seq![item.value] + rest.items,
                next: rest.next,
                diagnostics: item.diagnostics + rest.diagnostics,
            }
        } else {
            ParsedItems { items: seq![item.value], next: after, diagnostics: item.diagnostics }
        }
    } else {
        ParsedItems { items: Seq::empty(), next: pos, diagnostics: Seq::empty() }
    }
}

/// What parsing produces for a whole token sequence.
pub open spec fn parse_document(tokens: Seq<TokenView>) -> Parsed {
    parse_expression(tokens, 0)
}

} // verus!
