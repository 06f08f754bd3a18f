//! The grammar of documents, as a relation between tokens and values.
//!
//! ```text
//! document := object | value
//! value    := STRING | NUMBER | "true" | "false" | "null" | array | object
//! object   := "{" ( member ( "," member )* )? "}"
//! member   := STRING ":" value
//! array    := "[" ( value ( "," value )* )? "]"
//! ```
//!
//! A value fixes how many tokens it is written with ([`value_span`]), so a
//! derivation is given by the tokens, the position where it starts and the
//! value: [`derives_value`] says that the tokens from that position on spell
//! the value by the rules above.

use vstd::prelude::*;
use crate::parsing::kind_at;
use crate::token::{TokenType, TokenView};
use crate::value::{MemberView, ValueView};

verus! {

/// The number of tokens that `value` is written with.
pub open spec fn value_span(value: ValueView) -> nat
    decreases value, 0nat,
{
    match value {
        ValueView::Array(items) => 2 + items_span(items, 0),
        ValueView::Object(members) => 2 + members_span(members, 0),
        _ => 1,
    }
}

/// The number of tokens that `items[from..]` are written with, the commas
/// between them included.
pub open spec fn items_span(items: Seq<ValueView>, from: int) -> nat
    decreases items, items.len() - from,
{
    if 0 <= from < items.len() {
        value_span(items[from]) + if from + 1 < items.len() {
            1 + items_span(items, from + 1)
        } else {
            0
        }
    } else {
        0
    }
}

/// The number of tokens that `members[from..]` are written with, the commas
/// between them included.
pub open spec fn members_span(members: Seq<MemberView>, from: int) -> nat
    decreases members, members.len() - from,
{
    if 0 <= from < members.len() {
        2 + value_span(members[from].value) + if from + 1 < members.len() {
            1 + members_span(members, from + 1)
        } else {
            0
        }
    } else {
        0
    }
}

/// The rule `value`: the tokens from `lo` on spell `value`.
pub open spec fn derives_value(tokens: Seq<TokenView>, lo: int, value: ValueView) -> bool
    decreases value, 0nat,
{
    match value {
        ValueView::String(_) => kind_at(tokens, lo) == TokenType::String && tokens[lo].literal
            == value,
        ValueView::Number(_) => kind_at(tokens, lo) == TokenType::Number && tokens[lo].literal
            == value,
        ValueView::Bool(flag) => kind_at(tokens, lo) == if flag {
            TokenType::True
        } else {
            TokenType::False
        },
        ValueView::Null => kind_at(tokens, lo) == TokenType::Null,
        ValueView::Array(items) => {
            &&& kind_at(tokens, lo) == TokenType::LeftSquareBracket
            &&& derives_items(tokens, lo + 1, items, 0)
            &&& kind_at(tokens, lo + 1 + items_span(items, 0)) == TokenType::RightSquareBracket
        },
        ValueView::Object(members) => {
            &&& kind_at(tokens, lo) == TokenType::LeftCurlyBracket
            &&& derives_members(tokens, lo + 1, members, 0)
            &&& kind_at(tokens, lo + 1 + members_span(members, 0))
                == TokenType::RightCurlyBracket
        },
    }
}

/// The inside of the rule `array`: the tokens from `lo` on spell
/// `items[from..]`, with a comma between one item and the next.
pub open spec fn derives_items(
    tokens: Seq<TokenView>,
    lo: int,
    items: Seq<ValueView>,
    from: int,
) -> bool
    decreases items, items.len() - from,
{
    if 0 <= from < items.len() {
        let after = lo + value_span(items[from]);
        &&& derives_value(tokens, lo, items[from])
        &&& from + 1 < items.len() ==> {
            &&& kind_at(tokens, after) == TokenType::Comma
            &&& derives_items(tokens, after + 1, items, from + 1)
        }
    } else {
        true
    }
}

/// The inside of the rule `object`: the tokens from `lo` on spell
/// `members[from..]`, each by the rule `member`, with a comma between one
/// member and the next.
pub open spec fn derives_members(
    tokens: Seq<TokenView>,
    lo: int,
    members: Seq<MemberView>,
    from: int,
) -> bool
    decreases members, members.len() - from,
{
    if 0 <= from < members.len() {
        let after = lo + 2 + value_span(members[from].value);
        &&& kind_at(tokens, lo) == TokenType::String
        &&& tokens[lo].literal == ValueView::String(members[from].key)
        &&& kind_at(tokens, lo + 1) == TokenType::Colon
        &&& derives_value(tokens, lo + 2, members[from].value)
        &&& from + 1 < members.len() ==> {
            &&& kind_at(tokens, after) == TokenType::Comma
            &&& derives_members(tokens, after + 1, members, from + 1)
        }
    } else {
        true
    }
}

/// The rule `document`: the tokens, from the first on, spell `value`.
pub open spec fn derives_document(tokens: Seq<TokenView>, value: ValueView) -> bool {
    derives_value(tokens, 0, value)
}

} // verus!
