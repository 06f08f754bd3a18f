//! What holds of lexing and parsing on every input.

use vstd::prelude::*;
use crate::diagnostic::Diagnostic;
use crate::document::{read, ReadingView};
use crate::lexer::Lexer;
use crate::lexing::{
    is_blank, lemma_run_is_maximal, lemma_step_advances, lemma_string_end_bounds, lex, lex_from,
    lex_step, optional, string_end, CharClass,
};
use crate::parser::Parser;
use crate::grammar::{
    derives_document, derives_items, derives_members, derives_value, items_span, members_span,
    value_span,
};
use crate::parsing::{
    key_of, kind_at, parse_array, parse_document, parse_expression, parse_items,
    parse_members, parse_object, parse_value, skip_comma, Parsed, ParsedItems, ParsedMembers,
};
use crate::token::{eof_token, TokenType, TokenView};
use crate::value::{MemberView, ValueView};

verus! {

/// The kinds of token that a value can start with.
pub open spec fn starts_value(kind: TokenType) -> bool {
    kind == TokenType::String || kind == TokenType::Number || kind == TokenType::True || kind
        == TokenType::False || kind == TokenType::Null || kind == TokenType::LeftSquareBracket
        || kind == TokenType::LeftCurlyBracket
}

/// Every value that the grammar derives is parsed back: from the position
/// where the derivation starts, the parser builds exactly that value, stops
/// right after its last token and reports nothing. The derivation lies
/// inside the tokens, starts with a token that can start a value and does
/// not end in a comma.
pub proof fn lemma_derived_value_is_parsed(tokens: Seq<TokenView>, lo: int, value: ValueView)
    requires
        0 <= lo,
        derives_value(tokens, lo, value),
    ensures
        parse_expression(tokens, lo) == (Parsed {
            value,
            next: lo + value_span(value),
            diagnostics: Seq::empty(),
        }),
        lo + value_span(value) <= tokens.len(),
        starts_value(kind_at(tokens, lo)),
        kind_at(tokens, lo + value_span(value) - 1) != TokenType::Comma,
    decreases value, 0nat,
{
    match value {
        ValueView::Array(items) => {
            if items.len() > 0 {
                lemma_derived_items_are_parsed(tokens, lo + 1, items, 0);
            }
            assert(parse_items(tokens, lo + 1).items =~= items);
        },
        ValueView::Object(members) => {
            if members.len() > 0 {
                lemma_derived_members_are_parsed(tokens, lo + 1, members, 0);
            }
            assert(parse_members(tokens, lo + 1).members =~= members);
        },
        _ => {},
    }
}

/// The items that the grammar derives before a closing `]` are parsed back,
/// in order, and the parser stops at the bracket.
pub proof fn lemma_derived_items_are_parsed(
    tokens: Seq<TokenView>,
    lo: int,
    items: Seq<ValueView>,
    from: int,
)
    requires
        0 <= lo,
        0 <= from < items.len(),
        derives_items(tokens, lo, items, from),
        kind_at(tokens, lo + items_span(items, from)) == TokenType::RightSquareBracket,
    ensures
        parse_items(tokens, lo) == (ParsedItems {
            items: items.subrange(from, items.len() as int),
            next: lo + items_span(items, from),
            diagnostics: Seq::empty(),
        }),
        kind_at(tokens, lo + items_span(items, from) - 1) != TokenType::Comma,
    decreases items, items.len() - from,
{
    let item = parse_expression(tokens, lo);
    lemma_derived_value_is_parsed(tokens, lo, items[from]);
    let after = skip_comma(tokens, item.next);
    if from + 1 < items.len() {
        lemma_derived_items_are_parsed(tokens, after, items, from + 1);
    }
    let rest = parse_items(tokens, after);
    assert(seq![item.value] + rest.items =~= items.subrange(from, items.len() as int));
}

/// The members that the grammar derives before a closing `}` are parsed
/// back, in order and with their keys, and the parser stops at the bracket.
pub proof fn lemma_derived_members_are_parsed(
    tokens: Seq<TokenView>,
    lo: int,
    members: Seq<MemberView>,
    from: int,
)
    requires
        0 <= lo,
        0 <= from < members.len(),
        derives_members(tokens, lo, members, from),
        kind_at(tokens, lo + members_span(members, from)) == TokenType::RightCurlyBracket,
    ensures
        parse_members(tokens, lo) == (ParsedMembers {
            members: members.subrange(from, members.len() as int),
            next: lo + members_span(members, from),
            diagnostics: Seq::empty(),
        }),
        kind_at(tokens, lo + members_span(members, from) - 1) != TokenType::Comma,
    decreases members, members.len() - from,
{
    let member = parse_expression(tokens, lo + 2);
    lemma_derived_value_is_parsed(tokens, lo + 2, members[from].value);
    let first = MemberView { key: key_of(tokens[lo]), value: member.value };
    let after = skip_comma(tokens, member.next);
    if from + 1 < members.len() {
        lemma_derived_members_are_parsed(tokens, after, members, from + 1);
    }
    let rest = parse_members(tokens, after);
    assert(seq![first] + rest.members =~= members.subrange(from, members.len() as int));
}

/// A well-formed document parses to the value that the grammar derives
/// from it, with no diagnostic.
pub proof fn lemma_well_formed_document_parses(tokens: Seq<TokenView>, value: ValueView)
    requires
        derives_document(tokens, value),
    ensures
        parse_document(tokens).value == value,
        parse_document(tokens).diagnostics == Seq::<Diagnostic>::empty(),
        parse_document(tokens).next == value_span(value),
{
    lemma_derived_value_is_parsed(tokens, 0, value);
}

/// The members that the grammar derives, followed by a comma and then the
/// closing `}`, are parsed back, and the parser stops behind the comma.
pub proof fn lemma_members_before_trailing_comma(
    tokens: Seq<TokenView>,
    lo: int,
    members: Seq<MemberView>,
    from: int,
)
    requires
        0 <= lo,
        0 <= from < members.len(),
        derives_members(tokens, lo, members, from),
        kind_at(tokens, lo + members_span(members, from)) == TokenType::Comma,
        kind_at(tokens, lo + members_span(members, from) + 1) == TokenType::RightCurlyBracket,
    ensures
        parse_members(tokens, lo) == (ParsedMembers {
            members: members.subrange(from, members.len() as int),
            next: lo + members_span(members, from) + 1,
            diagnostics: Seq::empty(),
        }),
    decreases members, members.len() - from,
{
    let member = parse_expression(tokens, lo + 2);
    lemma_derived_value_is_parsed(tokens, lo + 2, members[from].value);
    let first = MemberView { key: key_of(tokens[lo]), value: member.value };
    let after = skip_comma(tokens, member.next);
    if from + 1 < members.len() {
        lemma_members_before_trailing_comma(tokens, after, members, from + 1);
    }
    let rest = parse_members(tokens, after);
    assert(seq![first] + rest.members =~= members.subrange(from, members.len() as int));
}

/// The items that the grammar derives, followed by a comma and then the
/// closing `]`, are parsed back, and the parser stops behind the comma.
pub proof fn lemma_items_before_trailing_comma(
    tokens: Seq<TokenView>,
    lo: int,
    items: Seq<ValueView>,
    from: int,
)
    requires
        0 <= lo,
        0 <= from < items.len(),
        derives_items(tokens, lo, items, from),
        kind_at(tokens, lo + items_span(items, from)) == TokenType::Comma,
        kind_at(tokens, lo + items_span(items, from) + 1) == TokenType::RightSquareBracket,
    ensures
        parse_items(tokens, lo) == (ParsedItems {
            items: items.subrange(from, items.len() as int),
            next: lo + items_span(items, from) + 1,
            diagnostics: Seq::empty(),
        }),
    decreases items, items.len() - from,
{
    let item = parse_expression(tokens, lo);
    lemma_derived_value_is_parsed(tokens, lo, items[from]);
    let after = skip_comma(tokens, item.next);
    if from + 1 < items.len() {
        lemma_items_before_trailing_comma(tokens, after, items, from + 1);
    }
    let rest = parse_items(tokens, after);
    assert(seq![item.value] + rest.items =~= items.subrange(from, items.len() as int));
}

/// A comma before the closing `}` of an object is an error, whatever the
/// members are: the parser gives the empty object and reports the comma, or,
/// where there is no member before it, the bracket that does not close.
pub proof fn lemma_trailing_comma_in_object_is_reported(
    tokens: Seq<TokenView>,
    lo: int,
    members: Seq<MemberView>,
)
    requires
        0 <= lo,
        kind_at(tokens, lo) == TokenType::LeftCurlyBracket,
        derives_members(tokens, lo + 1, members, 0),
        kind_at(tokens, lo + 1 + members_span(members, 0)) == TokenType::Comma,
        kind_at(tokens, lo + 2 + members_span(members, 0)) == TokenType::RightCurlyBracket,
    ensures
        parse_expression(tokens, lo).value == ValueView::Object(Seq::empty()),
        parse_expression(tokens, lo).diagnostics == if members.len() > 0 {
            seq![Diagnostic::UnexpectedComma]
        } else {
            seq![Diagnostic::UnclosedCurlyBrackets]
        },
{
    if members.len() > 0 {
        lemma_members_before_trailing_comma(tokens, lo + 1, members, 0);
    }
}

/// A comma before the closing `]` of an array that has items is an error:
/// the parser gives the empty array and reports the comma.
pub proof fn lemma_trailing_comma_in_array_is_reported(
    tokens: Seq<TokenView>,
    lo: int,
    items: Seq<ValueView>,
)
    requires
        0 <= lo,
        items.len() > 0,
        kind_at(tokens, lo) == TokenType::LeftSquareBracket,
        derives_items(tokens, lo + 1, items, 0),
        kind_at(tokens, lo + 1 + items_span(items, 0)) == TokenType::Comma,
        kind_at(tokens, lo + 2 + items_span(items, 0)) == TokenType::RightSquareBracket,
    ensures
        parse_expression(tokens, lo).value == ValueView::Array(Seq::empty()),
        parse_expression(tokens, lo).diagnostics == seq![Diagnostic::UnexpectedComma],
{
    lemma_items_before_trailing_comma(tokens, lo + 1, items, 0);
}

/// The grammar is unambiguous: from one position, the tokens spell at most
/// one value.
pub proof fn lemma_derivation_is_unique(
    tokens: Seq<TokenView>,
    lo: int,
    first: ValueView,
    second: ValueView,
)
    requires
        0 <= lo,
        derives_value(tokens, lo, first),
        derives_value(tokens, lo, second),
    ensures
        first == second,
{
    lemma_derived_value_is_parsed(tokens, lo, first);
    lemma_derived_value_is_parsed(tokens, lo, second);
}

/// A fresh parser that parses a well-formed document returns the value that
/// the grammar derives from it, reports nothing, and stops right after the
/// document.
pub proof fn lemma_parser_accepts_well_formed_document(
    before: Parser,
    after: Parser,
    result: ValueView,
    value: ValueView,
)
    requires
        before.is_fresh(),
        Parser::parse_relation(before, after, result),
        derives_document(before.tokens(), value),
    ensures
        result == value,
        after.reported().len() == 0,
        after.position() == value_span(value),
{
    lemma_well_formed_document_parses(before.tokens(), value);
}

/// What a token carries, by its kind: a `String` token a string, a `Number`
/// token a number that is not negative and fits in an `i32`, any other token
/// `Null`.
pub open spec fn carries_by_kind(token: TokenView) -> bool {
    match token.kind {
        TokenType::String => token.literal is String,
        TokenType::Number => token.literal matches ValueView::Number(n) && 0 <= n <= i32::MAX,
        _ => token.literal == ValueView::Null,
    }
}

/// Whatever the text, lexing gives at least one token, the last token is the
/// end marker, and no token before it is an end marker.
pub proof fn lemma_end_marker_once_and_last(src: Seq<char>, pos: int)
    ensures
        lex_from(src, pos).tokens.len() >= 1,
        lex_from(src, pos).tokens.last() == eof_token(),
        forall|i: int|
            0 <= i < lex_from(src, pos).tokens.len() - 1 ==> (#[trigger] lex_from(
                src,
                pos,
            ).tokens[i]).kind != TokenType::Eof,
    decreases src.len() - pos,
{
    if 0 <= pos < src.len() {
        let step = lex_step(src, pos);
        lemma_step_advances(src, pos);
        lemma_end_marker_once_and_last(src, step.next);
    }
}

/// The lexemes of `tokens`, put together in order.
pub open spec fn joined_lexemes(tokens: Seq<TokenView>) -> Seq<char>
    decreases tokens.len(),
{
    if tokens.len() == 0 {
        Seq::empty()
    } else {
        tokens[0].lexeme + joined_lexemes(tokens.drop_first())
    }
}

/// The text from `pos` on, without the blanks that stand outside string
/// literals.
pub open spec fn without_blanks(src: Seq<char>, pos: int) -> Seq<char>
    decreases src.len() - pos,
{
    if 0 <= pos < src.len() {
        if is_blank(src[pos]) {
            without_blanks(src, pos + 1)
        } else if src[pos] == '"' {
            let close = string_end(src, pos + 1);
            if pos < close < src.len() {
                src.subrange(pos, close + 1) + without_blanks(src, close + 1)
            } else {
                src.subrange(pos, src.len() as int)
            }
        } else {
            seq![src[pos]] + without_blanks(src, pos + 1)
        }
    } else {
        Seq::empty()
    }
}

/// A stretch of the text that holds neither a blank nor a double quote is
/// kept as it is.
pub proof fn lemma_plain_stretch_is_kept(src: Seq<char>, pos: int, end: int)
    requires
        0 <= pos <= end <= src.len(),
        forall|i: int| pos <= i < end ==> !is_blank(#[trigger] src[i]) && src[i] != '"',
    ensures
        without_blanks(src, pos) == src.subrange(pos, end) + without_blanks(src, end),
    decreases end - pos,
{
    if pos < end {
        lemma_plain_stretch_is_kept(src, pos + 1, end);
    }
}

/// Where the lexer reports nothing, the tokens hold the whole text but the
/// blanks outside string literals: their lexemes, put together, give it
/// back.
pub proof fn lemma_lexemes_give_the_text_back(src: Seq<char>, pos: int)
    requires
        0 <= pos <= src.len(),
        lex_from(src, pos).diagnostics.len() == 0,
    ensures
        joined_lexemes(lex_from(src, pos).tokens) == without_blanks(src, pos),
    decreases src.len() - pos,
{
    let all = lex_from(src, pos).tokens;
    if pos < src.len() {
        let step = lex_step(src, pos);
        let rest = lex_from(src, step.next);
        lemma_step_advances(src, pos);
        lemma_lexemes_give_the_text_back(src, step.next);
        if step.token is Some {
            assert(all.drop_first() =~= rest.tokens);
            if src[pos] == '"' {
                lemma_string_end_bounds(src, pos + 1);
            } else {
                lemma_run_is_maximal(src, pos + 1, CharClass::Digit);
                lemma_run_is_maximal(src, pos + 1, CharClass::Alphanumeric);
                lemma_plain_stretch_is_kept(src, pos, step.next);
            }
        }
    } else {
        assert(joined_lexemes(all) =~= Seq::<char>::empty()) by {
            reveal_with_fuel(joined_lexemes, 2);
        }
    }
}

/// A fresh lexer that scans its text ends with the end marker exactly once,
/// as the last token.
pub proof fn lemma_fresh_scan_ends_in_one_end_marker(before: Lexer, after: Lexer)
    requires
        before.is_fresh(),
        Lexer::scan_relation(before, after),
    ensures
        after.scanned().len() >= 1,
        after.scanned().last() == eof_token(),
        forall|i: int|
            0 <= i < after.scanned().len() - 1 ==> (#[trigger] after.scanned()[i]).kind
                != TokenType::Eof,
{
    lemma_end_marker_once_and_last(before.source(), 0);
    assert(after.scanned() =~= lex(before.source()).tokens);
}

/// Whatever the text, every token that lexing gives carries what its kind
/// says: only `String` and `Number` tokens carry a value other than `Null`.
pub proof fn lemma_tokens_carry_by_kind(src: Seq<char>, pos: int)
    ensures
        forall|i: int|
            0 <= i < lex_from(src, pos).tokens.len() ==> carries_by_kind(
                #[trigger] lex_from(src, pos).tokens[i],
            ),
    decreases src.len() - pos,
{
    if 0 <= pos < src.len() {
        let step = lex_step(src, pos);
        lemma_step_advances(src, pos);
        lemma_tokens_carry_by_kind(src, step.next);
        assert(lex_from(src, pos).tokens == optional(step.token) + lex_from(src, step.next).tokens);
    }
}

/// Lexing is repeatable: two fresh lexers over the same text end with the
/// same tokens, the same diagnostics and the same line count.
pub proof fn lemma_lexing_is_repeatable(
    first: Lexer,
    first_done: Lexer,
    second: Lexer,
    second_done: Lexer,
)
    requires
        first.is_fresh(),
        second.is_fresh(),
        first.source() == second.source(),
        Lexer::scan_relation(first, first_done),
        Lexer::scan_relation(second, second_done),
    ensures
        first_done.scanned() == second_done.scanned(),
        first_done.scanned() == lex(first.source()).tokens,
        first_done.reported() == second_done.reported(),
        first_done.reported() == lex(first.source()).diagnostics,
        first_done.line_number() == second_done.line_number(),
{
}

/// Parsing is repeatable: two fresh parsers over the same tokens return the
/// same value, report the same diagnostics and stop at the same position.
pub proof fn lemma_parsing_is_repeatable(
    first: Parser,
    first_done: Parser,
    first_value: ValueView,
    second: Parser,
    second_done: Parser,
    second_value: ValueView,
)
    requires
        first.is_fresh(),
        second.is_fresh(),
        first.tokens() == second.tokens(),
        Parser::parse_relation(first, first_done, first_value),
        Parser::parse_relation(second, second_done, second_value),
    ensures
        first_value == second_value,
        first_value == parse_document(first.tokens()).value,
        first_done.reported() == second_done.reported(),
        first_done.reported() == parse_document(first.tokens()).diagnostics,
        first_done.position() == second_done.position(),
{
}

/// Every `String` token of `tokens` carries a string.
pub open spec fn keys_carry_strings(tokens: Seq<TokenView>) -> bool {
    forall|i: int|
        0 <= i < tokens.len() && (#[trigger] tokens[i]).kind == TokenType::String
            ==> tokens[i].literal is String
}

/// Every diagnostic of `told` is one of the lexer's.
pub open spec fn only_lexical(told: Seq<Diagnostic>) -> bool {
    forall|i: int| 0 <= i < told.len() ==> (#[trigger] told[i]).is_lexical()
}

/// Every diagnostic of `told` is one of the parser's, and none is about a
/// key if `keys_are_strings` holds.
pub open spec fn only_syntactic(told: Seq<Diagnostic>, keys_are_strings: bool) -> bool {
    forall|i: int|
        0 <= i < told.len() ==> !(#[trigger] told[i]).is_lexical() && (keys_are_strings
            ==> told[i] != Diagnostic::MalformedKey)
}

/// Whatever the text, the lexer reports diagnostics of its own family only.
pub proof fn lemma_lexer_reports_lexical(src: Seq<char>, pos: int)
    ensures
        only_lexical(lex_from(src, pos).diagnostics),
    decreases src.len() - pos,
{
    if 0 <= pos < src.len() {
        let step = lex_step(src, pos);
        lemma_step_advances(src, pos);
        lemma_lexer_reports_lexical(src, step.next);
    }
}

/// The rule `document` moves forward inside the tokens and reports
/// diagnostics of the parser's family only.
pub proof fn lemma_expression_outcome(tokens: Seq<TokenView>, pos: int)
    requires
        0 <= pos <= tokens.len(),
    ensures
        pos <= parse_expression(tokens, pos).next <= tokens.len(),
        only_syntactic(parse_expression(tokens, pos).diagnostics, keys_carry_strings(tokens)),
    decreases tokens.len() - pos, 2int,
{
    if kind_at(tokens, pos) == TokenType::LeftCurlyBracket {
        lemma_object_outcome(tokens, pos + 1);
    } else {
        lemma_value_outcome(tokens, pos);
    }
}

/// The rule `value` moves forward inside the tokens and reports diagnostics
/// of the parser's family only.
pub proof fn lemma_value_outcome(tokens: Seq<TokenView>, pos: int)
    requires
        0 <= pos <= tokens.len(),
    ensures
        pos <= parse_value(tokens, pos).next <= tokens.len(),
        only_syntactic(parse_value(tokens, pos).diagnostics, keys_carry_strings(tokens)),
    decreases tokens.len() - pos, 1int,
{
    if kind_at(tokens, pos) == TokenType::LeftSquareBracket {
        lemma_array_outcome(tokens, pos + 1);
    }
}

/// The rule `object` moves forward inside the tokens and reports diagnostics
/// of the parser's family only.
pub proof fn lemma_object_outcome(tokens: Seq<TokenView>, pos: int)
    requires
        0 <= pos <= tokens.len(),
    ensures
        pos <= parse_object(tokens, pos).next <= tokens.len(),
        only_syntactic(parse_object(tokens, pos).diagnostics, keys_carry_strings(tokens)),
    decreases tokens.len() - pos, 4int,
{
    lemma_members_outcome(tokens, pos);
}

/// The members of an object move forward inside the tokens and report
/// diagnostics of the parser's family only.
pub proof fn lemma_members_outcome(tokens: Seq<TokenView>, pos: int)
    requires
        0 <= pos <= tokens.len(),
    ensures
        pos <= parse_members(tokens, pos).next <= tokens.len(),
        only_syntactic(parse_members(tokens, pos).diagnostics, keys_carry_strings(tokens)),
    decreases tokens.len() - pos, 3int,
{
    if kind_at(tokens, pos) == TokenType::String && kind_at(tokens, pos + 1) == TokenType::Colon {
        let member = parse_expression(tokens, pos + 2);
        lemma_expression_outcome(tokens, pos + 2);
        let after = skip_comma(tokens, member.next);
        if pos < after <= tokens.len() {
            lemma_members_outcome(tokens, after);
        }
    }
}

/// The rule `array` moves forward inside the tokens and reports diagnostics
/// of the parser's family only.
pub proof fn lemma_array_outcome(tokens: Seq<TokenView>, pos: int)
    requires
        0 <= pos <= tokens.len(),
    ensures
        pos <= parse_array(tokens, pos).next <= tokens.len(),
        only_syntactic(parse_array(tokens, pos).diagnostics, keys_carry_strings(tokens)),
    decreases tokens.len() - pos, 4int,
{
    lemma_items_outcome(tokens, pos);
}

/// The items of an array move forward inside the tokens and report
/// diagnostics of the parser's family only.
pub proof fn lemma_items_outcome(tokens: Seq<TokenView>, pos: int)
    requires
        0 <= pos <= tokens.len(),
    ensures
        pos <= parse_items(tokens, pos).next <= tokens.len(),
        only_syntactic(parse_items(tokens, pos).diagnostics, keys_carry_strings(tokens)),
    decreases tokens.len() - pos, 3int,
{
    if kind_at(tokens, pos) != TokenType::RightSquareBracket && kind_at(tokens, pos)
        != TokenType::Eof {
        let item = parse_expression(tokens, pos);
        lemma_expression_outcome(tokens, pos);
        let after = skip_comma(tokens, item.next);
        if pos < after <= tokens.len() {
            lemma_items_outcome(tokens, after);
        }
    }
}

/// Whatever the text, reading it keeps the two families apart: the lexer
/// reports lexical diagnostics only, and the parser, on what the lexer gave,
/// reports syntactic diagnostics only and never one about a key.
pub proof fn lemma_reading_keeps_families_apart(src: Seq<char>)
    ensures
        only_lexical(read(src).lexical),
        only_syntactic(read(src).syntactic, true),
{
    let tokens = lex(src).tokens;
    lemma_lexer_reports_lexical(src, 0);
    lemma_tokens_carry_by_kind(src, 0);
    lemma_expression_outcome(tokens, 0);
}

/// A text that lexes without a diagnostic into a well-formed document reads
/// as the value that the grammar derives from its tokens, with no diagnostic
/// of either family.
pub proof fn lemma_well_formed_text_reads(src: Seq<char>, value: ValueView)
    requires
        lex(src).diagnostics.len() == 0,
        derives_document(lex(src).tokens, value),
    ensures
        read(src) == (ReadingView {
            value,
            lexical: Seq::empty(),
            syntactic: Seq::empty(),
        }),
{
    lemma_well_formed_document_parses(lex(src).tokens, value);
}

} // verus!
