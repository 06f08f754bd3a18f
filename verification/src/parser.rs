//! The parser: recursive descent over the tokens, with one token of lookahead
//! and no backtracking. It never fails: where no value can be built it reports
//! a diagnostic and puts a placeholder.

use vstd::prelude::*;
use crate::diagnostic::Diagnostic;
use crate::parsing::{
    key_diagnostics, key_of, kind_at, parse_array, parse_expression, parse_items, parse_members,
    parse_object, parse_value,
};
use crate::token::{eof_token, token_views, Token, TokenType, TokenView};
use crate::value::{
    lemma_array_view, lemma_object_view, member_views, value_views, MemberView, Value, ValueView,
};

verus! {

/// A parser over one sequence of tokens.
pub struct Parser<'a> {
    tokens: &'a Vec<Token>,
    current: usize,
    diagnostics: Vec<Diagnostic>,
    end: Token,
}

impl<'a> Parser<'a> {
    /// The tokens being parsed.
    pub closed spec fn tokens(&self) -> Seq<TokenView> {
        token_views(self.tokens@)
    }

    /// How many tokens have been consumed.
    pub closed spec fn position(&self) -> int {
        self.current as int
    }

    /// The diagnostics reported so far.
    pub closed spec fn reported(&self) -> Seq<Diagnostic> {
        self.diagnostics@
    }

    /// The parser's invariant: the position lies inside the tokens.
    pub closed spec fn wf(&self) -> bool {
        &&& self.current <= self.tokens.len()
        &&& self.end@ == eof_token()
    }

    /// A parser that has not consumed anything yet.
    pub open spec fn is_fresh(&self) -> bool {
        &&& self.wf()
        &&& self.position() == 0
        &&& self.reported() == Seq::<Diagnostic>::empty()
    }

    /// What one call of [`Parser::parse`] does to a parser and what it
    /// returns: the value that parsing builds from the position the parser was
    /// at, with the diagnostics appended and the position moved behind it.
    pub open spec fn parse_relation(before: Parser, after: Parser, value: ValueView) -> bool {
        let parsed = parse_expression(before.tokens(), before.position());
        &&& after.wf()
        &&& after.tokens() == before.tokens()
        &&& value == parsed.value
        &&& after.position() == parsed.next
        &&& after.reported() == before.reported() + parsed.diagnostics
    }

    /// A parser at the first of `tokens`.
    pub fn new(tokens: &'a Vec<Token>) -> (parser: Parser<'a>)
        ensures
            parser.is_fresh(),
            parser.tokens() == token_views(tokens@),
    {
        Parser {
            tokens,
            current: 0,
            diagnostics: Vec::new(),
            end: Token { token_type: TokenType::Eof, lexeme: String::new(), literal: Value::Null },
        }
    }

    /// Parses one document and returns its value.
    pub fn parse(&mut self) -> (value: Value)
        requires
            old(self).wf(),
        ensures
            Parser::parse_relation(*old(self), *final(self), value@),
    {
        self.expression()
    }

    /// All diagnostics reported so far, in the order in which they came up.
    pub fn diagnostics(&self) -> (diagnostics: &Vec<Diagnostic>)
        ensures
            diagnostics@ == self.reported(),
    {
        &self.diagnostics
    }

    /// Gives up the parser for the diagnostics it has reported.
    pub fn into_diagnostics(self) -> (diagnostics: Vec<Diagnostic>)
        ensures
            diagnostics@ == self.reported(),
    {
        self.diagnostics
    }

    /// Whether any diagnostic has been reported.
    pub fn has_error(&self) -> (flag: bool)
        ensures
            flag == (self.reported().len() > 0),
    {
        self.diagnostics.len() > 0
    }

    /// What a rule does to the parser, given what the rule computes.
    spec fn follows(
        before: Parser,
        after: Parser,
        next: int,
        diagnostics: Seq<Diagnostic>,
    ) -> bool {
        &&& after.wf()
        &&& after.tokens == before.tokens
        &&& after.current == next
        &&& after.current >= before.current
        &&& after.diagnostics@ == before.diagnostics@ + diagnostics
    }

    /// The rule `document`: an object if the next token is `{`, else a value.
    fn expression(&mut self) -> (value: Value)
        requires
            old(self).wf(),
        ensures
            value@ == parse_expression(old(self).tokens(), old(self).current as int).value,
            Parser::follows(
                *old(self),
                *final(self),
                parse_expression(old(self).tokens(), old(self).current as int).next,
                parse_expression(old(self).tokens(), old(self).current as int).diagnostics,
            ),
        decreases old(self).tokens@.len() - old(self).current, 2int,
    {
        if self.matches(&[TokenType::LeftCurlyBracket]) {
            return self.object();
        }
        return self.value();
    }

    /// A keyword, a number, a string or an array. Any other token is left
    /// where it is, reported, and stood for by `Null`.
    fn value(&mut self) -> (value: Value)
        requires
            old(self).wf(),
        ensures
            value@ == parse_value(old(self).tokens(), old(self).current as int).value,
            Parser::follows(
                *old(self),
                *final(self),
                parse_value(old(self).tokens(), old(self).current as int).next,
                parse_value(old(self).tokens(), old(self).current as int).diagnostics,
            ),
        decreases old(self).tokens@.len() - old(self).current, 1int,
    {
        let ghost told = self.diagnostics@;
        proof {
            assert(told + Seq::<Diagnostic>::empty() =~= told);
        }
        if self.matches(&[TokenType::False]) {
            return Value::Bool(false);
        }
        if self.matches(&[TokenType::True]) {
            return Value::Bool(true);
        }
        if self.matches(&[TokenType::Number, TokenType::String]) {
            return self.previous().literal.clone();
        }
        if self.matches(&[TokenType::Null]) {
            return Value::Null;
        }
        if self.matches(&[TokenType::LeftSquareBracket]) {
            return self.array();
        }
        self.report(Diagnostic::UnrecognizedValue);
        return Value::Null;
    }

    /// The rest of an object, after `{`. A member is a `String` token that
    /// is directly followed by a colon, then a value, then an optional comma.
    fn object(&mut self) -> (value: Value)
        requires
            old(self).wf(),
            old(self).current >= 1,
        ensures
            value@ == parse_object(old(self).tokens(), old(self).current as int).value,
            Parser::follows(
                *old(self),
                *final(self),
                parse_object(old(self).tokens(), old(self).current as int).next,
                parse_object(old(self).tokens(), old(self).current as int).diagnostics,
            ),
        decreases old(self).tokens@.len() - old(self).current, 4int,
    {
        let ghost tokens = self.tokens();
        let ghost begin = self.current as int;
        let ghost told = self.diagnostics@;
        let mut pairs: Vec<(String, Value)> = Vec::new();
        proof {
            assert(member_views(pairs@) =~= Seq::<MemberView>::empty());
        }
        while self.check(&TokenType::String) && self.check_next(&TokenType::Colon)
            invariant
                self.wf(),
                self.tokens == old(self).tokens,
                tokens == self.tokens(),
                begin == old(self).current,
                begin <= self.current,
                parse_members(tokens, begin).members == member_views(pairs@) + parse_members(
                    tokens,
                    self.current as int,
                ).members,
                parse_members(tokens, begin).next == parse_members(
                    tokens,
                    self.current as int,
                ).next,
                told + parse_members(tokens, begin).diagnostics == self.diagnostics@
                    + parse_members(tokens, self.current as int).diagnostics,
            decreases self.tokens@.len() - self.current,
        {
            let key = self.key();
            self.advance();
            self.advance();
            let value = self.expression();
            pairs.push((key, value));
            if self.check(&TokenType::Comma) {
                self.advance();
            }
        }
        if self.previous().token_type != TokenType::Comma {
            if self.matches(&[TokenType::RightCurlyBracket]) {
                proof {
                    lemma_object_view(pairs);
                }
                return Value::Object(pairs);
            } else {
                self.report(Diagnostic::UnclosedCurlyBrackets);
            }
        } else {
            self.report(Diagnostic::UnexpectedComma);
        }
        let empty: Vec<(String, Value)> = Vec::new();
        proof {
            lemma_object_view(empty);
        }
        return Value::Object(empty);
    }

    /// The rest of an array, after `[`. An item that consumes no token ends
    /// the items, so that the loop ends on every input.
    fn array(&mut self) -> (value: Value)
        requires
            old(self).wf(),
            old(self).current >= 1,
        ensures
            value@ == parse_array(old(self).tokens(), old(self).current as int).value,
            Parser::follows(
                *old(self),
                *final(self),
                parse_array(old(self).tokens(), old(self).current as int).next,
                parse_array(old(self).tokens(), old(self).current as int).diagnostics,
            ),
        decreases old(self).tokens@.len() - old(self).current, 4int,
    {
        let ghost tokens = self.tokens();
        let ghost begin = self.current as int;
        let ghost told = self.diagnostics@;
        let mut values: Vec<Value> = Vec::new();
        proof {
            assert(value_views(values@) =~= Seq::<ValueView>::empty());
        }
        let mut stalled = false;
        while !stalled && self.peek().token_type != TokenType::RightSquareBracket
            && !self.is_at_end()
            invariant
                self.wf(),
                self.tokens == old(self).tokens,
                tokens == self.tokens(),
                begin == old(self).current,
                begin <= self.current,
                !stalled ==> parse_items(tokens, begin).items == value_views(values@)
                    + parse_items(tokens, self.current as int).items,
                !stalled ==> parse_items(tokens, begin).next == parse_items(
                    tokens,
                    self.current as int,
                ).next,
                !stalled ==> told + parse_items(tokens, begin).diagnostics == self.diagnostics@
                    + parse_items(tokens, self.current as int).diagnostics,
                stalled ==> parse_items(tokens, begin).items == value_views(values@),
                stalled ==> parse_items(tokens, begin).next == self.current,
                stalled ==> told + parse_items(tokens, begin).diagnostics == self.diagnostics@,
                stalled ==> kind_at(tokens, self.current as int) != TokenType::RightSquareBracket,
            decreases self.tokens@.len() - self.current, if stalled { 0int } else { 1int },
        {
            let before = self.current;
            let value = self.expression();
            values.push(value);
            if self.check(&TokenType::Comma) {
                self.advance();
            }
            if self.current == before {
                stalled = true;
            }
        }
        if self.previous().token_type != TokenType::Comma {
            if self.matches(&[TokenType::RightSquareBracket]) {
                proof {
                    lemma_array_view(values);
                }
                return Value::Array(values);
            } else {
                self.report(Diagnostic::UnclosedSquareBrackets);
            }
        } else {
            self.report(Diagnostic::UnexpectedComma);
        }
        let empty: Vec<Value> = Vec::new();
        proof {
            lemma_array_view(empty);
        }
        return Value::Array(empty);
    }

    /// The key that the current token gives, with a diagnostic if it carries
    /// no string.
    fn key(&mut self) -> (key: String)
        requires
            old(self).wf(),
            old(self).current < old(self).tokens.len(),
        ensures
            key@ == key_of(old(self).tokens()[old(self).current as int]),
            Parser::follows(
                *old(self),
                *final(self),
                old(self).current as int,
                key_diagnostics(old(self).tokens()[old(self).current as int]),
            ),
    {
        let ghost told = self.diagnostics@;
        match &self.tokens[self.current].literal {
            Value::String(s) => {
                s.clone()
            },
            _ => {
                self.report(Diagnostic::MalformedKey);
                proof {
                    assert(told.push(Diagnostic::MalformedKey) =~= told + seq![
                        Diagnostic::MalformedKey,
                    ]);
                }
                String::new()
            },
        }
    }

    /// Records `diagnostic`.
    fn report(&mut self, diagnostic: Diagnostic)
        ensures
            final(self).diagnostics@ == old(self).diagnostics@.push(diagnostic),
            final(self).current == old(self).current,
            final(self).tokens == old(self).tokens,
            final(self).end == old(self).end,
    {
        self.diagnostics.push(diagnostic);
    }

    /// Consumes the current token if its kind is one of `token_types`.
    fn matches(&mut self, token_types: &[TokenType]) -> (matched: bool)
        requires
            old(self).wf(),
        ensures
            matched == (token_types@.contains(kind_at(old(self).tokens(), old(self).current as int))
                && kind_at(old(self).tokens(), old(self).current as int) != TokenType::Eof),
            final(self).current == if matched {
                old(self).current + 1
            } else {
                old(self).current as int
            },
            final(self).wf(),
            final(self).tokens == old(self).tokens,
            final(self).diagnostics == old(self).diagnostics,
    {
        let mut i: usize = 0;
        while i < token_types.len()
            invariant
                *self == *old(self),
                self.wf(),
                i <= token_types.len(),
                forall|j: int|
                    0 <= j < i ==> !(#[trigger] token_types@[j] == kind_at(
                        self.tokens(),
                        self.current as int,
                    ) && kind_at(self.tokens(), self.current as int) != TokenType::Eof),
            decreases token_types.len() - i,
        {
            if self.check(&token_types[i]) {
                self.advance();
                return true;
            }
            i += 1;
        }
        false
    }

    /// Whether the current token has the given kind and is not the end
    /// marker.
    fn check(&self, token_type: &TokenType) -> (same: bool)
        requires
            self.wf(),
        ensures
            same == (kind_at(self.tokens(), self.current as int) == *token_type && *token_type
                != TokenType::Eof),
    {
        if self.is_at_end() {
            return false;
        }
        self.peek().token_type == *token_type
    }

    /// Whether the token after the current one has the given kind.
    fn check_next(&self, token_type: &TokenType) -> (same: bool)
        requires
            self.wf(),
            self.current < self.tokens.len(),
        ensures
            same == (kind_at(self.tokens(), self.current + 1) == *token_type),
    {
        if self.current + 1 >= self.tokens.len() {
            return *token_type == TokenType::Eof;
        }
        self.tokens[self.current + 1].token_type == *token_type
    }

    /// Consumes the current token unless it is the end marker, and returns
    /// the token before the new position.
    fn advance(&mut self) -> (token: &Token)
        requires
            old(self).wf(),
            old(self).current >= 1 || kind_at(old(self).tokens(), old(self).current as int)
                != TokenType::Eof,
        ensures
            final(self).current == if kind_at(old(self).tokens(), old(self).current as int)
                == TokenType::Eof {
                old(self).current as int
            } else {
                old(self).current + 1
            },
            final(self).wf(),
            final(self).tokens == old(self).tokens,
            final(self).diagnostics == old(self).diagnostics,
            token@ == final(self).tokens()[final(self).current - 1],
    {
        if !self.is_at_end() {
            self.current = self.current + 1;
        }
        self.previous()
    }

    /// Whether the current token is the end marker.
    fn is_at_end(&self) -> (at_end: bool)
        requires
            self.wf(),
        ensures
            at_end == (kind_at(self.tokens(), self.current as int) == TokenType::Eof),
    {
        self.peek().token_type == TokenType::Eof
    }

    /// The current token; past the last token, an end marker.
    fn peek(&self) -> (token: &Token)
        requires
            self.wf(),
        ensures
            token@.kind == kind_at(self.tokens(), self.current as int),
            self.current < self.tokens.len() ==> token@ == self.tokens()[self.current as int],
    {
        if self.current < self.tokens.len() {
            &self.tokens[self.current]
        } else {
            &self.end
        }
    }

    /// The token before the current one.
    fn previous(&self) -> (token: &Token)
        requires
            self.wf(),
            self.current >= 1,
        ensures
            token@ == self.tokens()[self.current - 1],
    {
        &self.tokens[self.current - 1]
    }
}

} // verus!
