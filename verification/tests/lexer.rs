use simple_json_parser::{Diagnostic, Lexer, Token, TokenType, Value};

fn kinds(tokens: &Vec<Token>) -> Vec<TokenType> {
    tokens.iter().map(|t| t.token_type).collect()
}

fn lex_kinds(text: &str) -> (Vec<TokenType>, Vec<Diagnostic>) {
    let mut lexer = Lexer::new(String::from(text));
    let found = kinds(lexer.scan_tokens());
    (found, lexer.diagnostics().clone())
}

#[test]
fn empty_object_gives_two_brackets_and_end() {
    let (found, told) = lex_kinds("{}");
    assert_eq!(
        found,
        vec![TokenType::LeftCurlyBracket, TokenType::RightCurlyBracket, TokenType::Eof]
    );
    assert!(told.is_empty());
}

#[test]
fn key_and_value_give_six_tokens() {
    let mut lexer = Lexer::new(String::from("{\"key\":\"value\"}"));
    let tokens = lexer.scan_tokens();
    assert_eq!(
        kinds(tokens),
        vec![
            TokenType::LeftCurlyBracket,
            TokenType::String,
            TokenType::Colon,
            TokenType::String,
            TokenType::RightCurlyBracket,
            TokenType::Eof
        ]
    );
    assert_eq!(tokens[1].literal, Value::String(String::from("key")));
    assert_eq!(tokens[3].literal, Value::String(String::from("value")));
    assert_eq!(tokens[3].lexeme, "\"value\"");
    assert!(!lexer.has_error());
}

#[test]
fn empty_text_gives_only_the_end_marker() {
    let mut lexer = Lexer::new(String::new());
    let tokens = lexer.scan_tokens();
    assert_eq!(tokens.len(), 1);
    assert_eq!(tokens[0].token_type, TokenType::Eof);
    assert_eq!(tokens[0].lexeme, "");
    assert_eq!(tokens[0].literal, Value::Null);
    assert!(!lexer.has_error());
}

#[test]
fn structural_tokens_keep_their_lexeme_and_carry_null() {
    let mut lexer = Lexer::new(String::from("[]{}:,"));
    let tokens = lexer.scan_tokens();
    assert_eq!(
        kinds(tokens),
        vec![
            TokenType::LeftSquareBracket,
            TokenType::RightSquareBracket,
            TokenType::LeftCurlyBracket,
            TokenType::RightCurlyBracket,
            TokenType::Colon,
            TokenType::Comma,
            TokenType::Eof
        ]
    );
    let lexemes: Vec<&str> = tokens.iter().map(|t| t.lexeme.as_str()).collect();
    assert_eq!(lexemes, vec!["[", "]", "{", "}", ":", ",", ""]);
    assert!(tokens.iter().all(|t| t.literal == Value::Null));
}

#[test]
fn keywords_are_recognised() {
    let mut lexer = Lexer::new(String::from("null true false"));
    let tokens = lexer.scan_tokens();
    assert_eq!(
        kinds(tokens),
        vec![TokenType::Null, TokenType::True, TokenType::False, TokenType::Eof]
    );
    assert_eq!(tokens[0].lexeme, "null");
    assert_eq!(tokens[1].lexeme, "true");
    assert_eq!(tokens[2].lexeme, "false");
    assert!(!lexer.has_error());
}

#[test]
fn unknown_word_is_reported_and_gives_no_token() {
    let (found, told) = lex_kinds("False");
    assert_eq!(found, vec![TokenType::Eof]);
    assert_eq!(told, vec![Diagnostic::UnknownWord]);
}

#[test]
fn word_takes_letters_and_digits() {
    let (found, told) = lex_kinds("null1 true");
    assert_eq!(found, vec![TokenType::True, TokenType::Eof]);
    assert_eq!(told, vec![Diagnostic::UnknownWord]);
}

#[test]
fn number_is_a_run_of_digits() {
    let mut lexer = Lexer::new(String::from("101"));
    let tokens = lexer.scan_tokens();
    assert_eq!(kinds(tokens), vec![TokenType::Number, TokenType::Eof]);
    assert_eq!(tokens[0].literal, Value::Number(101));
    assert_eq!(tokens[0].lexeme, "101");
}

#[test]
fn number_with_leading_zeros() {
    let mut lexer = Lexer::new(String::from("0007"));
    let tokens = lexer.scan_tokens();
    assert_eq!(tokens[0].literal, Value::Number(7));
    assert_eq!(tokens[0].lexeme, "0007");
}

#[test]
fn largest_number_fits() {
    let mut lexer = Lexer::new(String::from("2147483647"));
    let tokens = lexer.scan_tokens();
    assert_eq!(tokens[0].literal, Value::Number(2147483647));
    assert!(!lexer.has_error());
}

#[test]
fn number_out_of_range_is_reported() {
    let (found, told) = lex_kinds("[2147483648]");
    assert_eq!(
        found,
        vec![TokenType::LeftSquareBracket, TokenType::RightSquareBracket, TokenType::Eof]
    );
    assert_eq!(told, vec![Diagnostic::NumberOutOfRange]);
}

#[test]
fn very_long_number_is_reported_once() {
    let (found, told) = lex_kinds("99999999999999999999999999999999");
    assert_eq!(found, vec![TokenType::Eof]);
    assert_eq!(told, vec![Diagnostic::NumberOutOfRange]);
}

#[test]
fn sign_and_fraction_end_the_digits() {
    let mut lexer = Lexer::new(String::from("-1.5e3"));
    let tokens = lexer.scan_tokens();
    assert_eq!(
        kinds(tokens),
        vec![TokenType::Number, TokenType::Number, TokenType::Eof]
    );
    assert_eq!(tokens[0].literal, Value::Number(1));
    assert_eq!(tokens[1].literal, Value::Number(5));
    assert_eq!(
        lexer.diagnostics().clone(),
        vec![
            Diagnostic::UnexpectedCharacter,
            Diagnostic::UnexpectedCharacter,
            Diagnostic::UnknownWord
        ]
    );
}

#[test]
fn digits_then_letters_are_two_steps() {
    let (found, told) = lex_kinds("12true");
    assert_eq!(found, vec![TokenType::Number, TokenType::True, TokenType::Eof]);
    assert!(told.is_empty());
}

#[test]
fn string_literal_is_what_stands_between_the_quotes() {
    let mut lexer = Lexer::new(String::from("\"a b\tc\""));
    let tokens = lexer.scan_tokens();
    assert_eq!(tokens[0].literal, Value::String(String::from("a b\tc")));
    assert_eq!(tokens[0].lexeme, "\"a b\tc\"");
}

#[test]
fn empty_string_literal() {
    let mut lexer = Lexer::new(String::from("\"\""));
    let tokens = lexer.scan_tokens();
    assert_eq!(kinds(tokens), vec![TokenType::String, TokenType::Eof]);
    assert_eq!(tokens[0].literal, Value::String(String::new()));
}

#[test]
fn backslash_is_kept_as_it_is() {
    let mut lexer = Lexer::new(String::from("\"a\\nb\""));
    let tokens = lexer.scan_tokens();
    assert_eq!(tokens[0].literal, Value::String(String::from("a\\nb")));
    assert_eq!(lexer.line(), 1);
}

#[test]
fn escaped_quote_does_not_end_the_string() {
    let mut lexer = Lexer::new(String::from("\"a\\\"b\""));
    let tokens = lexer.scan_tokens();
    assert_eq!(kinds(tokens), vec![TokenType::String, TokenType::Eof]);
    assert_eq!(tokens[0].literal, Value::String(String::from("a\\\"b")));
    assert_eq!(tokens[0].lexeme, "\"a\\\"b\"");
    assert!(!lexer.has_error());
    assert!(lexer.diagnostics().is_empty());
}

#[test]
fn escaped_backslash_escapes_nothing_after_it() {
    let mut lexer = Lexer::new(String::from("\"a\\\\\" 1"));
    let tokens = lexer.scan_tokens();
    assert_eq!(
        kinds(tokens),
        vec![TokenType::String, TokenType::Number, TokenType::Eof]
    );
    assert_eq!(tokens[0].literal, Value::String(String::from("a\\\\")));
    assert!(!lexer.has_error());
}

#[test]
fn string_of_escaped_quotes_only() {
    let mut lexer = Lexer::new(String::from("[\"\\\"\\\"\"]"));
    let tokens = lexer.scan_tokens();
    assert_eq!(
        kinds(tokens),
        vec![
            TokenType::LeftSquareBracket,
            TokenType::String,
            TokenType::RightSquareBracket,
            TokenType::Eof
        ]
    );
    assert_eq!(tokens[1].literal, Value::String(String::from("\\\"\\\"")));
    assert!(!lexer.has_error());
}

#[test]
fn escaped_closing_quote_leaves_the_string_unterminated() {
    let (found, told) = lex_kinds("\"a\\\"");
    assert_eq!(found, vec![TokenType::Eof]);
    assert_eq!(told, vec![Diagnostic::UnterminatedString]);
}

#[test]
fn backslash_at_the_end_of_the_text_leaves_the_string_unterminated() {
    let (found, told) = lex_kinds("\"a\\");
    assert_eq!(found, vec![TokenType::Eof]);
    assert_eq!(told, vec![Diagnostic::UnterminatedString]);
}

#[test]
fn backslash_outside_a_string_is_an_unexpected_character() {
    let (found, told) = lex_kinds("\\\"a\"");
    assert_eq!(found, vec![TokenType::String, TokenType::Eof]);
    assert_eq!(told, vec![Diagnostic::UnexpectedCharacter]);
}

#[test]
fn escaped_line_feed_is_counted() {
    let mut lexer = Lexer::new(String::from("\"a\\\nb\"\n"));
    let tokens = lexer.scan_tokens();
    assert_eq!(tokens[0].literal, Value::String(String::from("a\\\nb")));
    assert_eq!(lexer.line(), 3);
    assert!(!lexer.has_error());
}

#[test]
fn string_holds_characters_beyond_ascii() {
    let mut lexer = Lexer::new(String::from("\"h\u{e9}llo \u{4e16}\""));
    let tokens = lexer.scan_tokens();
    assert_eq!(tokens[0].literal, Value::String(String::from("h\u{e9}llo \u{4e16}")));
}

#[test]
fn unterminated_string_is_reported_and_gives_no_token() {
    let (found, told) = lex_kinds("{\"abc");
    assert_eq!(found, vec![TokenType::LeftCurlyBracket, TokenType::Eof]);
    assert_eq!(told, vec![Diagnostic::UnterminatedString]);
}

#[test]
fn lone_quote_is_unterminated() {
    let (found, told) = lex_kinds("\"");
    assert_eq!(found, vec![TokenType::Eof]);
    assert_eq!(told, vec![Diagnostic::UnterminatedString]);
}

#[test]
fn unexpected_character_is_reported_and_lexing_goes_on() {
    let (found, told) = lex_kinds("['x']");
    assert_eq!(
        found,
        vec![TokenType::LeftSquareBracket, TokenType::RightSquareBracket, TokenType::Eof]
    );
    assert_eq!(
        told,
        vec![
            Diagnostic::UnexpectedCharacter,
            Diagnostic::UnknownWord,
            Diagnostic::UnexpectedCharacter
        ]
    );
}

#[test]
fn white_space_gives_no_token() {
    let (found, told) = lex_kinds(" \t\r\n ");
    assert_eq!(found, vec![TokenType::Eof]);
    assert!(told.is_empty());
}

#[test]
fn line_counter_counts_line_feeds() {
    let mut lexer = Lexer::new(String::from("{\n\"a\":\n1\n}\n"));
    assert_eq!(lexer.line(), 1);
    lexer.scan_tokens();
    assert_eq!(lexer.line(), 5);
}

#[test]
fn line_counter_counts_line_feeds_inside_strings() {
    let mut lexer = Lexer::new(String::from("\"a\nb\n\""));
    let tokens = lexer.scan_tokens();
    assert_eq!(tokens[0].literal, Value::String(String::from("a\nb\n")));
    assert_eq!(lexer.line(), 3);
}

#[test]
fn line_counter_counts_line_feeds_of_an_unterminated_string() {
    let mut lexer = Lexer::new(String::from("\n\"a\nb"));
    lexer.scan_tokens();
    assert_eq!(lexer.line(), 3);
    assert!(lexer.has_error());
}

#[test]
fn end_marker_comes_once_and_last() {
    let (found, _) = lex_kinds("{\"a\": [1, 2, tru], ?}");
    let ends = found.iter().filter(|k| **k == TokenType::Eof).count();
    assert_eq!(ends, 1);
    assert_eq!(found[found.len() - 1], TokenType::Eof);
}

#[test]
fn lexemes_give_the_text_back_without_blanks() {
    let mut lexer = Lexer::new(String::from(
        " {\"a b\" :\t[ 12 , true,\n null ,\"c\\\" d\"]\r\n}\n",
    ));
    let tokens = lexer.scan_tokens();
    let joined: String = tokens.iter().map(|t| t.lexeme.as_str()).collect();
    assert_eq!(joined, "{\"a b\":[12,true,null,\"c\\\" d\"]}");
    assert!(!lexer.has_error());
}

#[test]
fn scanning_again_appends_one_more_end_marker() {
    let mut lexer = Lexer::new(String::from("[1]"));
    lexer.scan_tokens();
    let again = kinds(lexer.scan_tokens());
    assert_eq!(
        again,
        vec![
            TokenType::LeftSquareBracket,
            TokenType::Number,
            TokenType::RightSquareBracket,
            TokenType::Eof,
            TokenType::Eof
        ]
    );
}

#[test]
fn lexing_the_same_text_twice_gives_the_same_tokens() {
    let text = "{\"a\": [1, true, null], \"b\": \"c\", oops}";
    let mut first = Lexer::new(String::from(text));
    let mut second = Lexer::new(String::from(text));
    let a = first.scan_tokens();
    let b = second.scan_tokens();
    assert_eq!(a.len(), b.len());
    for i in 0..a.len() {
        assert_eq!(a[i].token_type, b[i].token_type);
        assert_eq!(a[i].lexeme, b[i].lexeme);
        assert_eq!(a[i].literal, b[i].literal);
    }
    assert_eq!(first.diagnostics(), second.diagnostics());
}

#[test]
fn tokens_accessor_gives_what_scanning_returned() {
    let mut lexer = Lexer::new(String::from("[true]"));
    let scanned = kinds(lexer.scan_tokens());
    assert_eq!(kinds(lexer.tokens()), scanned);
}

#[test]
fn messages_of_the_lexical_diagnostics() {
    assert_eq!(Diagnostic::UnexpectedCharacter.message(), "Unexpected character");
    assert_eq!(Diagnostic::UnterminatedString.message(), "Unterminated string.");
    assert_eq!(Diagnostic::UnknownWord.message(), "Unexpected character.");
    assert_eq!(Diagnostic::NumberOutOfRange.message(), "Number out of range.");
}
