use simple_json_parser::{Diagnostic, Lexer, Parser, Token, TokenType, Value};

fn parse_text(text: &str) -> (Value, Vec<Diagnostic>, Vec<Diagnostic>) {
    let mut lexer = Lexer::new(String::from(text));
    lexer.scan_tokens();
    let lexical = lexer.diagnostics().clone();
    let mut parser = Parser::new(lexer.tokens());
    let value = parser.parse();
    let syntactic = parser.diagnostics().clone();
    (value, lexical, syntactic)
}

fn text(s: &str) -> Value {
    Value::String(String::from(s))
}

fn token(token_type: TokenType, literal: Value) -> Token {
    Token { token_type, lexeme: String::new(), literal }
}

#[test]
fn empty_array_parses_without_error() {
    let (value, lexical, syntactic) = parse_text("[]");
    assert_eq!(value, Value::Array(vec![]));
    assert!(lexical.is_empty());
    assert!(syntactic.is_empty());
}

#[test]
fn nested_object_and_array() {
    let (value, _, syntactic) = parse_text("{\"a\":{\"b\":\"c\"},\"d\":[\"e\"]}");
    assert_eq!(
        value,
        Value::Object(vec![
            (String::from("a"), Value::Object(vec![(String::from("b"), text("c"))])),
            (String::from("d"), Value::Array(vec![text("e")]))
        ])
    );
    assert!(syntactic.is_empty());
}

#[test]
fn bare_values_are_documents() {
    assert_eq!(parse_text("\"s\"").0, text("s"));
    assert_eq!(parse_text("42").0, Value::Number(42));
    assert_eq!(parse_text("true").0, Value::Bool(true));
    assert_eq!(parse_text("false").0, Value::Bool(false));
    assert_eq!(parse_text("null").0, Value::Null);
    assert!(parse_text("null").2.is_empty());
    assert_eq!(
        parse_text("[1, [2, 3], {\"k\": []}]").0,
        Value::Array(vec![
            Value::Number(1),
            Value::Array(vec![Value::Number(2), Value::Number(3)]),
            Value::Object(vec![(String::from("k"), Value::Array(vec![]))])
        ])
    );
}

#[test]
fn members_keep_source_order_and_duplicate_keys() {
    let (value, _, syntactic) = parse_text("{\"b\": 1, \"a\": 2, \"b\": 3}");
    assert_eq!(
        value,
        Value::Object(vec![
            (String::from("b"), Value::Number(1)),
            (String::from("a"), Value::Number(2)),
            (String::from("b"), Value::Number(3))
        ])
    );
    assert!(syntactic.is_empty());
}

#[test]
fn trailing_comma_in_array_is_reported() {
    let (value, _, syntactic) = parse_text("[1, 2,]");
    assert_eq!(value, Value::Array(vec![]));
    assert_eq!(syntactic, vec![Diagnostic::UnexpectedComma]);
}

#[test]
fn trailing_comma_in_object_is_reported() {
    let (value, _, syntactic) = parse_text("{\"a\": [1], \"b\": {\"c\": null},}");
    assert_eq!(value, Value::Object(vec![]));
    assert_eq!(syntactic, vec![Diagnostic::UnexpectedComma]);
}

#[test]
fn comma_alone_in_object_is_reported() {
    let (value, _, syntactic) = parse_text("{,}");
    assert_eq!(value, Value::Object(vec![]));
    assert_eq!(syntactic, vec![Diagnostic::UnclosedCurlyBrackets]);
}

#[test]
fn comma_alone_in_array_is_reported() {
    let (value, _, syntactic) = parse_text("[,]");
    assert_eq!(value, Value::Array(vec![]));
    assert_eq!(
        syntactic,
        vec![Diagnostic::UnrecognizedValue, Diagnostic::UnexpectedComma]
    );
}

#[test]
fn unclosed_object_is_reported() {
    let (value, _, syntactic) = parse_text("{\"a\": 1");
    assert_eq!(value, Value::Object(vec![]));
    assert_eq!(syntactic, vec![Diagnostic::UnclosedCurlyBrackets]);
}

#[test]
fn unclosed_array_is_reported() {
    let (value, _, syntactic) = parse_text("[1, 2");
    assert_eq!(value, Value::Array(vec![]));
    assert_eq!(syntactic, vec![Diagnostic::UnclosedSquareBrackets]);
}

#[test]
fn key_without_colon_ends_the_members() {
    let (value, _, syntactic) = parse_text("{\"a\" 1}");
    assert_eq!(value, Value::Object(vec![]));
    assert_eq!(syntactic, vec![Diagnostic::UnclosedCurlyBrackets]);
}

#[test]
fn member_without_value_is_reported() {
    let (value, _, syntactic) = parse_text("{\"a\": }");
    assert_eq!(value, Value::Object(vec![(String::from("a"), Value::Null)]));
    assert_eq!(syntactic, vec![Diagnostic::UnrecognizedValue]);
}

#[test]
fn unrecognized_value_is_not_consumed() {
    let mut lexer = Lexer::new(String::from(": 1"));
    let tokens = lexer.scan_tokens();
    let mut parser = Parser::new(tokens);
    assert_eq!(parser.parse(), Value::Null);
    assert_eq!(parser.diagnostics().clone(), vec![Diagnostic::UnrecognizedValue]);
    assert_eq!(parser.parse(), Value::Null);
    assert_eq!(
        parser.diagnostics().clone(),
        vec![Diagnostic::UnrecognizedValue, Diagnostic::UnrecognizedValue]
    );
}

#[test]
fn array_item_that_consumes_nothing_ends_the_array() {
    let (value, _, syntactic) = parse_text("[}");
    assert_eq!(value, Value::Array(vec![]));
    assert_eq!(
        syntactic,
        vec![Diagnostic::UnrecognizedValue, Diagnostic::UnclosedSquareBrackets]
    );
}

#[test]
fn array_with_colon_inside_is_reported() {
    let (value, _, syntactic) = parse_text("[1 : 2]");
    assert_eq!(value, Value::Array(vec![]));
    assert_eq!(
        syntactic,
        vec![Diagnostic::UnrecognizedValue, Diagnostic::UnclosedSquareBrackets]
    );
}

#[test]
fn comma_is_optional_between_items() {
    let (value, _, syntactic) = parse_text("[1 2 3]");
    assert_eq!(
        value,
        Value::Array(vec![Value::Number(1), Value::Number(2), Value::Number(3)])
    );
    assert!(syntactic.is_empty());
}

#[test]
fn failed_inner_object_fails_the_outer_one() {
    let (value, _, syntactic) = parse_text("{\"a\": {\"b\": 1,}}");
    assert_eq!(value, Value::Object(vec![]));
    assert_eq!(
        syntactic,
        vec![Diagnostic::UnexpectedComma, Diagnostic::UnexpectedComma]
    );
}

#[test]
fn what_follows_the_document_is_left_alone() {
    let mut lexer = Lexer::new(String::from("{} []"));
    let tokens = lexer.scan_tokens();
    let mut parser = Parser::new(tokens);
    assert_eq!(parser.parse(), Value::Object(vec![]));
    assert!(!parser.has_error());
    assert_eq!(parser.parse(), Value::Array(vec![]));
    assert!(!parser.has_error());
}

#[test]
fn tokens_without_end_marker_read_as_ended() {
    let tokens = vec![
        token(TokenType::LeftSquareBracket, Value::Null),
        token(TokenType::Number, Value::Number(5)),
    ];
    let mut parser = Parser::new(&tokens);
    assert_eq!(parser.parse(), Value::Array(vec![]));
    assert_eq!(parser.diagnostics().clone(), vec![Diagnostic::UnclosedSquareBrackets]);
}

#[test]
fn no_tokens_at_all_give_null_and_a_diagnostic() {
    let tokens: Vec<Token> = Vec::new();
    let mut parser = Parser::new(&tokens);
    assert_eq!(parser.parse(), Value::Null);
    assert_eq!(parser.diagnostics().clone(), vec![Diagnostic::UnrecognizedValue]);
}

#[test]
fn key_token_without_string_gives_empty_key_and_a_diagnostic() {
    let tokens = vec![
        token(TokenType::LeftCurlyBracket, Value::Null),
        token(TokenType::String, Value::Number(3)),
        token(TokenType::Colon, Value::Null),
        token(TokenType::True, Value::Null),
        token(TokenType::RightCurlyBracket, Value::Null),
        token(TokenType::Eof, Value::Null),
    ];
    let mut parser = Parser::new(&tokens);
    assert_eq!(parser.parse(), Value::Object(vec![(String::new(), Value::Bool(true))]));
    assert_eq!(parser.diagnostics().clone(), vec![Diagnostic::MalformedKey]);
}

#[test]
fn number_token_gives_the_value_it_carries() {
    let carried = Value::Array(vec![Value::Number(1), text("x")]);
    let tokens = vec![
        token(TokenType::Number, carried.clone()),
        token(TokenType::Eof, Value::Null),
    ];
    let mut parser = Parser::new(&tokens);
    assert_eq!(parser.parse(), carried);
    assert_ne!(parser.parse(), carried);
}

#[test]
fn parsing_the_same_tokens_twice_gives_the_same_value() {
    let mut lexer = Lexer::new(String::from("{\"a\": [1, {\"b\": null}], \"c\": [2,]}"));
    let tokens = lexer.scan_tokens();
    let mut first = Parser::new(tokens);
    let mut second = Parser::new(tokens);
    assert_eq!(first.parse(), second.parse());
    assert_eq!(first.diagnostics(), second.diagnostics());
    assert_eq!(first.has_error(), second.has_error());
}

#[test]
fn messages_of_the_syntactic_diagnostics() {
    assert_eq!(Diagnostic::UnrecognizedValue.message(), "Unrecognized value");
    assert_eq!(Diagnostic::MalformedKey.message(), "Something went wrong.");
    assert_eq!(Diagnostic::UnclosedCurlyBrackets.message(), "Unclosed curly brackets.");
    assert_eq!(Diagnostic::UnclosedSquareBrackets.message(), "Unclosed square brackets.");
    assert_eq!(Diagnostic::UnexpectedComma.message(), "Unexpected comma.");
}
