//! The lexer: one pass over the text, left to right, that never fails.

use vstd::prelude::*;
use crate::chars::{char_is_alpha, char_is_alphanumeric, char_is_digit, is_alpha, is_digit};
use crate::diagnostic::Diagnostic;
use crate::lexing::{
    keyword, lemma_step_advances, lex_from, lex_step, line_feeds, optional, run_end, string_end,
    CharClass,
};
use crate::number::digits_to_number;
use crate::text::{string_of, to_chars};
use crate::token::{eof_token, lemma_token_views_push, token_views, Token, TokenType, TokenView};
use crate::value::{Value, ValueView};

verus! {

/// The line number after the first `pos` characters of `src`: lines are
/// counted from 1, and the count stops at `usize::MAX`.
pub open spec fn line_at(src: Seq<char>, pos: int) -> int {
    let line = 1 + line_feeds(src.take(pos)) as int;
    if line <= usize::MAX {
        line
    } else {
        usize::MAX as int
    }
}

/// Taking one more character adds one line feed if that character is one.
pub proof fn lemma_line_feeds_next(src: Seq<char>, pos: int)
    requires
        0 <= pos < src.len(),
    ensures
        line_feeds(src.take(pos + 1)) == line_feeds(src.take(pos)) + if src[pos] == '\n' {
            1nat
        } else {
            0nat
        },
{
    assert(src.take(pos + 1).drop_last() =~= src.take(pos));
}

/// The keyword that `chars[from..to]` spells, if it spells one.
pub fn keyword_of(chars: &Vec<char>, from: usize, to: usize) -> (kind: Option<TokenType>)
    requires
        from <= to <= chars.len(),
    ensures
        kind == keyword(chars@.subrange(from as int, to as int)),
{
    let ghost word = chars@.subrange(from as int, to as int);
    let n = to - from;
    if n == 4 && chars[from] == 'n' && chars[from + 1] == 'u' && chars[from + 2] == 'l' && chars[from
        + 3] == 'l' {
        assert(word =~= seq!['n', 'u', 'l', 'l']);
        Some(TokenType::Null)
    } else if n == 4 && chars[from] == 't' && chars[from + 1] == 'r' && chars[from + 2] == 'u'
        && chars[from + 3] == 'e' {
        assert(word =~= seq!['t', 'r', 'u', 'e']);
        Some(TokenType::True)
    } else if n == 5 && chars[from] == 'f' && chars[from + 1] == 'a' && chars[from + 2] == 'l'
        && chars[from + 3] == 's' && chars[from + 4] == 'e' {
        assert(word =~= seq!['f', 'a', 'l', 's', 'e']);
        Some(TokenType::False)
    } else {
        proof {
            let null = seq!['n', 'u', 'l', 'l'];
            let truth = seq!['t', 'r', 'u', 'e'];
            let falsity = seq!['f', 'a', 'l', 's', 'e'];
            if word == null {
                assert(word.len() == 4);
            }
            if word == truth {
                assert(word.len() == 4);
            }
            if word == falsity {
                assert(word.len() == 5);
            }
        }
        None
    }
}

/// A lexer over one text.
pub struct Lexer {
    source: Vec<char>,
    tokens: Vec<Token>,
    start: usize,
    current: usize,
    line: usize,
    diagnostics: Vec<Diagnostic>,
}

impl Lexer {
    /// The text being lexed.
    pub closed spec fn source(&self) -> Seq<char> {
        self.source@
    }

    /// How many characters have been consumed.
    pub closed spec fn position(&self) -> int {
        self.current as int
    }

    /// The tokens produced so far.
    pub closed spec fn scanned(&self) -> Seq<TokenView> {
        token_views(self.tokens@)
    }

    /// The diagnostics reported so far.
    pub closed spec fn reported(&self) -> Seq<Diagnostic> {
        self.diagnostics@
    }

    /// The current value of the line counter.
    pub closed spec fn line_number(&self) -> int {
        self.line as int
    }

    /// The cursors lie inside the text, in order.
    spec fn in_bounds(&self) -> bool {
        self.start <= self.current <= self.source.len()
    }

    /// The lexer's invariant: the position lies inside the text, and the line
    /// counter has counted the line feeds consumed so far.
    pub closed spec fn wf(&self) -> bool {
        &&& self.in_bounds()
        &&& self.line == line_at(self.source@, self.current as int)
    }

    /// A lexer that has not consumed anything yet.
    pub open spec fn is_fresh(&self) -> bool {
        &&& self.wf()
        &&& self.position() == 0
        &&& self.scanned() == Seq::<TokenView>::empty()
        &&& self.reported() == Seq::<Diagnostic>::empty()
    }

    /// What one call of [`Lexer::scan_tokens`] does to a lexer: it consumes the
    /// rest of the text and appends what lexing produces from the position it
    /// was at, the end marker included.
    pub open spec fn scan_relation(before: Lexer, after: Lexer) -> bool {
        let produced = lex_from(before.source(), before.position());
        &&& after.wf()
        &&& after.source() == before.source()
        &&& after.position() == before.source().len()
        &&& after.scanned() == before.scanned() + produced.tokens
        &&& after.reported() == before.reported() + produced.diagnostics
        &&& after.line_number() == line_at(before.source(), before.source().len() as int)
    }

    /// A lexer at the start of `source`.
    pub fn new(source: String) -> (lexer: Self)
        ensures
            lexer.is_fresh(),
            lexer.source() == source@,
            lexer.line_number() == 1,
    {
        let chars = to_chars(source.as_str());
        proof {
            assert(token_views(Seq::<Token>::empty()) =~= Seq::<TokenView>::empty());
        }
        Lexer {
            source: chars,
            tokens: Vec::new(),
            start: 0,
            current: 0,
            line: 1,
            diagnostics: Vec::new(),
        }
    }

    /// Lexes the rest of the text and returns all tokens produced so far. The
    /// last of them is the end marker. Every call appends an end marker, so a
    /// lexer that scans its text once gives it exactly once.
    pub fn scan_tokens(&mut self) -> (tokens: &Vec<Token>)
        requires
            old(self).wf(),
        ensures
            Lexer::scan_relation(*old(self), *final(self)),
            token_views(tokens@) == final(self).scanned(),
    {
        let ghost src = self.source@;
        let ghost begin = self.current as int;
        let ghost tokens0 = token_views(self.tokens@);
        let ghost diagnostics0 = self.diagnostics@;
        while !self.is_at_end()
            invariant
                self.wf(),
                self.source@ == src,
                tokens0 + lex_from(src, begin).tokens == token_views(self.tokens@) + lex_from(
                    src,
                    self.current as int,
                ).tokens,
                diagnostics0 + lex_from(src, begin).diagnostics == self.diagnostics@ + lex_from(
                    src,
                    self.current as int,
                ).diagnostics,
            decreases self.source.len() - self.current,
        {
            let ghost here = self.current as int;
            self.start = self.current;
            self.scan_token();
            proof {
                lemma_step_advances(src, here);
            }
        }
        let ghost seen = self.tokens@;
        let end = Token { token_type: TokenType::Eof, lexeme: String::new(), literal: Value::Null };
        proof {
            lemma_token_views_push(seen, end);
            assert(token_views(seen).push(eof_token()) =~= token_views(seen) + seq![eof_token()]);
        }
        self.tokens.push(end);
        &self.tokens
    }

    /// All tokens produced so far.
    pub fn tokens(&self) -> (tokens: &Vec<Token>)
        ensures
            token_views(tokens@) == self.scanned(),
    {
        &self.tokens
    }

    /// All diagnostics reported so far, in the order in which they came up.
    pub fn diagnostics(&self) -> (diagnostics: &Vec<Diagnostic>)
        ensures
            diagnostics@ == self.reported(),
    {
        &self.diagnostics
    }

    /// Gives up the lexer for the diagnostics it has reported.
    pub fn into_diagnostics(self) -> (diagnostics: Vec<Diagnostic>)
        ensures
            diagnostics@ == self.reported(),
    {
        self.diagnostics
    }

    /// Whether any diagnostic has been reported.
    pub fn has_error(&self) -> (flag: bool)
        ensures
            flag == (self.reported().len() > 0),
    {
        self.diagnostics.len() > 0
    }

    /// The line counter: 1 plus the number of line feeds consumed.
    pub fn line(&self) -> (line: usize)
        ensures
            line == self.line_number(),
    {
        self.line
    }

    /// Whether the whole text has been consumed.
    fn is_at_end(&self) -> (at_end: bool)
        ensures
            at_end == (self.current >= self.source.len()),
    {
        self.current >= self.source.len()
    }

    /// Consumes the current character and returns it.
    fn advance(&mut self) -> (c: char)
        requires
            old(self).current < old(self).source.len(),
        ensures
            c == old(self).source@[old(self).current as int],
            final(self).current == old(self).current + 1,
            final(self).source == old(self).source,
            final(self).tokens == old(self).tokens,
            final(self).start == old(self).start,
            final(self).line == old(self).line,
            final(self).diagnostics == old(self).diagnostics,
    {
        let c = self.source[self.current];
        self.current = self.current + 1;
        c
    }

    /// The current character, or `'\0'` at the end of the text.
    fn peek(&self) -> (c: char)
        ensures
            c == if self.current < self.source.len() {
                self.source@[self.current as int]
            } else {
                '\0'
            },
    {
        if self.is_at_end() {
            return '\0';
        }
        self.source[self.current]
    }

    /// Counts one more line, unless the counter is at its maximum.
    fn count_line(&mut self)
        requires
            old(self).current < old(self).source.len(),
            old(self).source@[old(self).current as int] == '\n',
            old(self).line == line_at(old(self).source@, old(self).current as int),
        ensures
            final(self).line == line_at(old(self).source@, old(self).current + 1),
            final(self).current == old(self).current,
            final(self).source == old(self).source,
            final(self).tokens == old(self).tokens,
            final(self).start == old(self).start,
            final(self).diagnostics == old(self).diagnostics,
    {
        proof {
            lemma_line_feeds_next(self.source@, self.current as int);
        }
        if self.line < usize::MAX {
            self.line = self.line + 1;
        }
    }

    /// Records `diagnostic`.
    fn report(&mut self, diagnostic: Diagnostic)
        ensures
            final(self).diagnostics@ == old(self).diagnostics@.push(diagnostic),
            final(self).current == old(self).current,
            final(self).source == old(self).source,
            final(self).tokens == old(self).tokens,
            final(self).start == old(self).start,
            final(self).line == old(self).line,
    {
        self.diagnostics.push(diagnostic);
    }

    /// Appends a token of the given kind whose lexeme is the text from the
    /// start of the current step to the current position.
    fn add_token(&mut self, token_type: TokenType, literal: Option<Value>)
        requires
            old(self).in_bounds(),
        ensures
            token_views(final(self).tokens@) == token_views(old(self).tokens@).push(
                TokenView {
                    kind: token_type,
                    lexeme: old(self).source@.subrange(
                        old(self).start as int,
                        old(self).current as int,
                    ),
                    literal: match literal {
                        Some(v) => v@,
                        None => ValueView::Null,
                    },
                },
            ),
            final(self).current == old(self).current,
            final(self).source == old(self).source,
            final(self).start == old(self).start,
            final(self).line == old(self).line,
            final(self).diagnostics == old(self).diagnostics,
    {
        let text = string_of(&self.source, self.start, self.current);
        let token = Token {
            token_type,
            lexeme: text,
            literal: match literal {
                Some(v) => v,
                None => Value::Null,
            },
        };
        self.tokens.push(token);
    }

    /// One step of the lexer: consumes the current character and what
    /// belongs to it, and appends at most one token or one diagnostic.
    fn scan_token(&mut self)
        requires
            old(self).wf(),
            old(self).start == old(self).current,
            old(self).current < old(self).source.len(),
        ensures
            final(self).wf(),
            final(self).source == old(self).source,
            final(self).current == lex_step(old(self).source@, old(self).current as int).next,
            token_views(final(self).tokens@) == token_views(old(self).tokens@) + optional(
                lex_step(old(self).source@, old(self).current as int).token,
            ),
            final(self).diagnostics@ == old(self).diagnostics@ + optional(
                lex_step(old(self).source@, old(self).current as int).diagnostic,
            ),
    {
        let ghost src = self.source@;
        let ghost here = self.current as int;
        proof {
            lemma_line_feeds_next(src, here);
        }
        if self.peek() == '\n' {
            self.count_line();
        }
        let c = self.advance();
        if c == '{' {
            self.add_token(TokenType::LeftCurlyBracket, None);
        } else if c == '}' {
            self.add_token(TokenType::RightCurlyBracket, None);
        } else if c == '[' {
            self.add_token(TokenType::LeftSquareBracket, None);
        } else if c == ']' {
            self.add_token(TokenType::RightSquareBracket, None);
        } else if c == ':' {
            self.add_token(TokenType::Colon, None);
        } else if c == ',' {
            self.add_token(TokenType::Comma, None);
        } else if c == '\n' {
        } else if c == '"' {
            self.string();
        } else if char_is_digit(c) {
            self.number();
        } else if c == ' ' || c == '\r' || c == '\t' {
        } else if char_is_alpha(c) {
            self.identifier();
        } else {
            self.report(Diagnostic::UnexpectedCharacter);
        }
    }

    /// The rest of a string literal, after the opening quote. The string
    /// runs to the next quote that no backslash escapes. The literal is what
    /// stands between the two quotes, as it stands: nothing is decoded, and a
    /// backslash and the character it escapes are both kept.
    fn string(&mut self)
        requires
            old(self).wf(),
            old(self).start + 1 == old(self).current,
            old(self).source@[old(self).start as int] == '"',
        ensures
            final(self).wf(),
            final(self).source == old(self).source,
            final(self).start == old(self).start,
            final(self).current == lex_step(old(self).source@, old(self).start as int).next,
            token_views(final(self).tokens@) == token_views(old(self).tokens@) + optional(
                lex_step(old(self).source@, old(self).start as int).token,
            ),
            final(self).diagnostics@ == old(self).diagnostics@ + optional(
                lex_step(old(self).source@, old(self).start as int).diagnostic,
            ),
    {
        let ghost src = self.source@;
        let ghost open = self.start as int;
        while self.peek() != '"' && !self.is_at_end()
            invariant
                self.wf(),
                self.source == old(self).source,
                self.tokens == old(self).tokens,
                self.diagnostics == old(self).diagnostics,
                self.start == old(self).start,
                src == self.source@,
                open == self.start,
                open < self.current,
                string_end(src, open + 1) == string_end(src, self.current as int),
            decreases self.source.len() - self.current,
        {
            proof {
                lemma_line_feeds_next(src, self.current as int);
            }
            if self.peek() == '\n' {
                self.count_line();
            }
            let c = self.advance();
            if c == '\\' && !self.is_at_end() {
                proof {
                    lemma_line_feeds_next(src, self.current as int);
                }
                if self.peek() == '\n' {
                    self.count_line();
                }
                self.advance();
            }
        }
        if self.is_at_end() {
            self.report(Diagnostic::UnterminatedString);
            return;
        }
        proof {
            lemma_line_feeds_next(src, self.current as int);
        }
        self.advance();
        let literal = string_of(&self.source, self.start + 1, self.current - 1);
        self.add_token(TokenType::String, Some(Value::String(literal)));
    }

    /// The rest of a number, after its first digit. A run of digits whose
    /// value does not fit in an `i32` is reported and gives no token.
    fn number(&mut self)
        requires
            old(self).wf(),
            old(self).start + 1 == old(self).current,
            is_digit(old(self).source@[old(self).start as int]),
        ensures
            final(self).wf(),
            final(self).source == old(self).source,
            final(self).start == old(self).start,
            final(self).current == lex_step(old(self).source@, old(self).start as int).next,
            token_views(final(self).tokens@) == token_views(old(self).tokens@) + optional(
                lex_step(old(self).source@, old(self).start as int).token,
            ),
            final(self).diagnostics@ == old(self).diagnostics@ + optional(
                lex_step(old(self).source@, old(self).start as int).diagnostic,
            ),
    {
        let ghost src = self.source@;
        let ghost first = self.start as int;
        while char_is_digit(self.peek()) && !self.is_at_end()
            invariant
                self.wf(),
                self.source == old(self).source,
                self.tokens == old(self).tokens,
                self.diagnostics == old(self).diagnostics,
                self.start == old(self).start,
                src == self.source@,
                first == self.start,
                first < self.current,
                forall|i: int| first <= i < self.current ==> is_digit(#[trigger] src[i]),
                run_end(src, first + 1, CharClass::Digit) == run_end(
                    src,
                    self.current as int,
                    CharClass::Digit,
                ),
            decreases self.source.len() - self.current,
        {
            proof {
                lemma_line_feeds_next(src, self.current as int);
            }
            self.advance();
        }
        match digits_to_number(&self.source, self.start, self.current) {
            Some(n) => {
                self.add_token(TokenType::Number, Some(Value::Number(n)));
            },
            None => {
                self.report(Diagnostic::NumberOutOfRange);
            },
        }
    }

    /// The rest of a word, after its first letter. A word that is no keyword
    /// is reported and gives no token.
    fn identifier(&mut self)
        requires
            old(self).wf(),
            old(self).start + 1 == old(self).current,
            is_alpha(old(self).source@[old(self).start as int]),
        ensures
            final(self).wf(),
            final(self).source == old(self).source,
            final(self).start == old(self).start,
            final(self).current == lex_step(old(self).source@, old(self).start as int).next,
            token_views(final(self).tokens@) == token_views(old(self).tokens@) + optional(
                lex_step(old(self).source@, old(self).start as int).token,
            ),
            final(self).diagnostics@ == old(self).diagnostics@ + optional(
                lex_step(old(self).source@, old(self).start as int).diagnostic,
            ),
    {
        let ghost src = self.source@;
        let ghost first = self.start as int;
        while char_is_alphanumeric(self.peek())
            invariant
                self.wf(),
                self.source == old(self).source,
                self.tokens == old(self).tokens,
                self.diagnostics == old(self).diagnostics,
                self.start == old(self).start,
                src == self.source@,
                first == self.start,
                first < self.current,
                run_end(src, first + 1, CharClass::Alphanumeric) == run_end(
                    src,
                    self.current as int,
                    CharClass::Alphanumeric,
                ),
            decreases self.source.len() - self.current,
        {
            proof {
                lemma_line_feeds_next(src, self.current as int);
            }
            self.advance();
        }
        match keyword_of(&self.source, self.start, self.current) {
            Some(kind) => {
                self.add_token(kind, None);
            },
            None => {
                self.report(Diagnostic::UnknownWord);
            },
        }
    }
}

} // verus!
