use jsruston::error::{JsonError, LexerError, ParserError};
use jsruston::lexer::Lexer;
use jsruston::number::Numeral;
use jsruston::parser::{JsonValue, Parser};
use jsruston::token::Token;

fn number(text: &str) -> JsonValue {
    JsonValue::Number(Numeral::parse(text).unwrap())
}

fn string(text: &str) -> JsonValue {
    JsonValue::String(text.to_string())
}

fn key(text: &str) -> Token {
    Token::ValueString(text.to_string())
}

fn parse(tokens: Vec<Token>) -> Result<JsonValue, ParserError> {
    Parser::new(tokens).parse()
}

#[test]
fn empty_object_and_empty_array() {
    assert_eq!(Parser::parse_json("{}"), Ok(JsonValue::Object(vec![])));
    assert_eq!(Parser::parse_json("[]"), Ok(JsonValue::Array(vec![])));
}

#[test]
fn missing_name_separator_is_rejected() {
    assert_eq!(
        Parser::parse_json(r#"{"name"}"#),
        Err(JsonError::ParserError(ParserError::UnexpectedToken(Some(Token::NameSeperator))))
    );
    assert_eq!(
        parse(vec![Token::BeginObject, key("name"), Token::EndObject]),
        Err(ParserError::UnexpectedToken(Some(Token::NameSeperator)))
    );
    assert_eq!(
        parse(vec![Token::BeginObject, key("name")]),
        Err(ParserError::UnexpectedToken(Some(Token::NameSeperator)))
    );
}

#[test]
fn scalars_in_an_object() {
    assert_eq!(
        Parser::parse_json(r#"{"n": 100}"#),
        Ok(JsonValue::Object(vec![("n".to_string(), number("100"))]))
    );
    assert_eq!(
        Parser::parse_json(r#"{"b": true}"#),
        Ok(JsonValue::Object(vec![("b".to_string(), JsonValue::Boolean(true))]))
    );
    assert_eq!(
        Parser::parse_json(r#"{"v": null}"#),
        Ok(JsonValue::Object(vec![("v".to_string(), JsonValue::Null)]))
    );
    let parsed = Parser::parse_json(r#"{"n": 100}"#).unwrap();
    let n = parsed.get("n").unwrap().get_number().unwrap();
    assert_eq!(n.as_str().parse::<f64>().unwrap(), 100.0);
}

#[test]
fn nesting() {
    assert_eq!(
        Parser::parse_json(r#"{"foo":[1,2,{"bar":2}]}"#),
        Ok(JsonValue::Object(vec![(
            "foo".to_string(),
            JsonValue::Array(vec![
                number("1"),
                number("2"),
                JsonValue::Object(vec![("bar".to_string(), number("2"))]),
            ])
        )]))
    );
}

#[test]
fn escapes_reach_the_value() {
    let parsed = Parser::parse_json(r#"{"s":"Line1\nLine2"}"#).unwrap();
    assert_eq!(parsed, JsonValue::Object(vec![("s".to_string(), string("Line1\nLine2"))]));
    assert!(parsed.get("s").unwrap().get_string().unwrap().contains('\n'));
}

#[test]
fn unterminated_string_fails_the_whole_parse() {
    assert_eq!(
        Parser::parse_json(r#"{"key": "value"#),
        Err(JsonError::LexerError(LexerError::UnexpectedEndOfLine))
    );
}

#[test]
fn lexer_errors_come_first() {
    assert_eq!(
        Parser::parse_json("{\"a\": tru}"),
        Err(JsonError::LexerError(LexerError::InvalidValue("tru}".to_string())))
    );
    assert_eq!(
        Parser::parse_json("] x"),
        Err(JsonError::LexerError(LexerError::UnexpectedCharacter('x')))
    );
}

#[test]
fn scalar_documents_are_rejected() {
    assert_eq!(
        Parser::parse_json("42"),
        Err(JsonError::ParserError(ParserError::UnexpectedStart(Some(Token::ValueNumber(
            Numeral::parse("42").unwrap()
        )))))
    );
    assert_eq!(
        parse(vec![key("text")]),
        Err(ParserError::UnexpectedStart(Some(key("text"))))
    );
    assert_eq!(
        parse(vec![Token::ValueBoolean(true)]),
        Err(ParserError::UnexpectedStart(Some(Token::ValueBoolean(true))))
    );
    assert_eq!(parse(vec![Token::ValueNil]), Err(ParserError::UnexpectedStart(Some(Token::ValueNil))));
    assert_eq!(
        parse(vec![Token::EndObject]),
        Err(ParserError::UnexpectedStart(Some(Token::EndObject)))
    );
}

#[test]
fn empty_tokens_are_rejected() {
    assert_eq!(parse(vec![]), Err(ParserError::UnexpectedStart(None)));
    assert_eq!(
        Parser::parse_json(""),
        Err(JsonError::ParserError(ParserError::UnexpectedStart(None)))
    );
    assert_eq!(
        Parser::parse_json(" \n "),
        Err(JsonError::ParserError(ParserError::UnexpectedStart(None)))
    );
}

#[test]
fn unclosed_containers_end_in_an_error() {
    assert_eq!(parse(vec![Token::BeginObject]), Err(ParserError::UnexpectedToken(None)));
    assert_eq!(parse(vec![Token::BeginArray]), Err(ParserError::UnexpectedToken(None)));
    assert_eq!(
        Parser::parse_json(r#"{"a": 1"#),
        Err(JsonError::ParserError(ParserError::UnexpectedToken(None)))
    );
    assert_eq!(
        Parser::parse_json(r#"{"a":"#),
        Err(JsonError::ParserError(ParserError::UnexpectedToken(None)))
    );
    assert_eq!(
        Parser::parse_json("[1, [2, 3]"),
        Err(JsonError::ParserError(ParserError::UnexpectedToken(None)))
    );
}

#[test]
fn a_key_must_be_a_string() {
    assert_eq!(
        Parser::parse_json("{1: 2}"),
        Err(JsonError::ParserError(ParserError::UnexpectedToken(Some(Token::ValueNumber(
            Numeral::parse("1").unwrap()
        )))))
    );
    assert_eq!(
        Parser::parse_json("{,}"),
        Err(JsonError::ParserError(ParserError::UnexpectedToken(Some(Token::ValueSeperator))))
    );
    assert_eq!(
        Parser::parse_json(r#"{"a": 1,, "b": 2}"#),
        Err(JsonError::ParserError(ParserError::UnexpectedToken(Some(Token::ValueSeperator))))
    );
    assert_eq!(
        Parser::parse_json(r#"{"a": 1]"#),
        Err(JsonError::ParserError(ParserError::UnexpectedToken(Some(Token::EndArray))))
    );
}

#[test]
fn a_value_must_begin_a_value() {
    assert_eq!(
        Parser::parse_json(r#"{"a": }"#),
        Err(JsonError::ParserError(ParserError::UnexpectedToken(Some(Token::EndObject))))
    );
    assert_eq!(
        Parser::parse_json(r#"{"a": :}"#),
        Err(JsonError::ParserError(ParserError::UnexpectedToken(Some(Token::NameSeperator))))
    );
    assert_eq!(
        Parser::parse_json("[,]"),
        Err(JsonError::ParserError(ParserError::UnexpectedToken(Some(Token::ValueSeperator))))
    );
    assert_eq!(
        Parser::parse_json("[1,,2]"),
        Err(JsonError::ParserError(ParserError::UnexpectedToken(Some(Token::ValueSeperator))))
    );
    assert_eq!(
        Parser::parse_json("[1}"),
        Err(JsonError::ParserError(ParserError::UnexpectedToken(Some(Token::EndObject))))
    );
}

#[test]
fn trailing_separator_is_tolerated() {
    assert_eq!(
        Parser::parse_json(r#"{"key": "value",}"#),
        Ok(JsonValue::Object(vec![("key".to_string(), string("value"))]))
    );
    assert_eq!(
        Parser::parse_json("[1, 2,]"),
        Ok(JsonValue::Array(vec![number("1"), number("2")]))
    );
}

#[test]
fn missing_separator_is_tolerated() {
    assert_eq!(
        Parser::parse_json(r#"{"key1": "value1" "key2": "value2"}"#),
        Ok(JsonValue::Object(vec![
            ("key1".to_string(), string("value1")),
            ("key2".to_string(), string("value2")),
        ]))
    );
    assert_eq!(
        Parser::parse_json("[1 2 [3] true]"),
        Ok(JsonValue::Array(vec![
            number("1"),
            number("2"),
            JsonValue::Array(vec![number("3")]),
            JsonValue::Boolean(true),
        ]))
    );
}

#[test]
fn tokens_after_the_document_are_not_read() {
    assert_eq!(Parser::parse_json("{} 1 ]"), Ok(JsonValue::Object(vec![])));
    let mut parser = Parser::new(vec![
        Token::BeginArray,
        Token::EndArray,
        Token::BeginObject,
        Token::EndObject,
    ]);
    assert_eq!(parser.parse(), Ok(JsonValue::Array(vec![])));
    assert_eq!(parser.parse(), Ok(JsonValue::Object(vec![])));
    assert_eq!(parser.parse(), Err(ParserError::UnexpectedStart(None)));
}

#[test]
fn repeated_keys_are_kept_in_order() {
    let parsed = Parser::parse_json(r#"{"a": 1, "b": 2, "a": 3}"#).unwrap();
    assert_eq!(
        parsed,
        JsonValue::Object(vec![
            ("a".to_string(), number("1")),
            ("b".to_string(), number("2")),
            ("a".to_string(), number("3")),
        ])
    );
    assert_eq!(parsed.get("a"), Ok(&number("1")));
    assert_eq!(parsed.len(), Ok(3));
}

#[test]
fn expect_token_reads_only_the_expected_token() {
    let mut parser = Parser::new(vec![Token::NameSeperator, Token::BeginArray, Token::EndArray]);
    assert_eq!(
        parser.expect_token(Token::ValueSeperator),
        Err(ParserError::UnexpectedToken(Some(Token::ValueSeperator)))
    );
    assert_eq!(parser.expect_token(Token::NameSeperator), Ok(()));
    assert_eq!(parser.parse(), Ok(JsonValue::Array(vec![])));
    assert_eq!(
        parser.expect_token(Token::EndArray),
        Err(ParserError::UnexpectedToken(Some(Token::EndArray)))
    );
}

#[test]
fn expect_token_compares_literals_by_their_text() {
    let mut parser = Parser::new(vec![key("a"), Token::ValueNumber(Numeral::parse("1.0").unwrap())]);
    assert_eq!(
        parser.expect_token(key("b")),
        Err(ParserError::UnexpectedToken(Some(key("b"))))
    );
    assert_eq!(parser.expect_token(key("a")), Ok(()));
    assert_eq!(
        parser.expect_token(Token::ValueNumber(Numeral::parse("1").unwrap())),
        Err(ParserError::UnexpectedToken(Some(Token::ValueNumber(Numeral::parse("1").unwrap()))))
    );
    assert_eq!(parser.expect_token(Token::ValueNumber(Numeral::parse("1.0").unwrap())), Ok(()));
}

#[test]
fn parse_value_reads_any_value() {
    let mut parser = Parser::new(vec![
        Token::ValueNil,
        key("s"),
        Token::ValueBoolean(false),
        Token::BeginArray,
        Token::ValueNil,
        Token::EndArray,
        Token::EndArray,
    ]);
    assert_eq!(parser.parse_value(), Ok(JsonValue::Null));
    assert_eq!(parser.parse_value(), Ok(string("s")));
    assert_eq!(parser.parse_value(), Ok(JsonValue::Boolean(false)));
    assert_eq!(parser.parse_value(), Ok(JsonValue::Array(vec![JsonValue::Null])));
    assert_eq!(
        parser.parse_value(),
        Err(ParserError::UnexpectedToken(Some(Token::EndArray)))
    );
    assert_eq!(
        parser.parse_value(),
        Err(ParserError::UnexpectedToken(Some(Token::EndArray)))
    );
}

#[test]
fn parse_object_and_parse_array_want_their_bracket() {
    let mut parser = Parser::new(vec![Token::BeginArray, Token::EndArray]);
    assert_eq!(
        parser.parse_object(),
        Err(ParserError::UnexpectedToken(Some(Token::BeginArray)))
    );
    assert_eq!(parser.parse_array(), Ok(JsonValue::Array(vec![])));
    assert_eq!(parser.parse_array(), Err(ParserError::UnexpectedToken(None)));
    assert_eq!(parser.parse_object(), Err(ParserError::UnexpectedToken(None)));
}

#[test]
fn a_cloned_parser_reads_on_from_the_same_place() {
    let tokens = Lexer::new(r#"[{"a": [1, 2]}, "b"]"#).lex().unwrap();
    let mut parser = Parser::new(tokens);
    assert_eq!(parser.expect_token(Token::BeginArray), Ok(()));
    let mut copy = parser.clone();
    assert_eq!(parser.parse(), copy.parse());
    assert_eq!(copy.expect_token(Token::ValueSeperator), Ok(()));
    assert_eq!(copy.parse_value(), Ok(string("b")));
    assert_eq!(parser.expect_token(Token::ValueSeperator), Ok(()));
    assert_eq!(parser.parse_value(), Ok(string("b")));
}

#[test]
fn deep_nesting() {
    let depth = 200;
    let text = "[".repeat(depth) + &"]".repeat(depth);
    let mut value = &Parser::parse_json(&text).unwrap();
    let mut levels = 0;
    while let Ok(inner) = value.index(0) {
        value = inner;
        levels += 1;
    }
    assert_eq!(levels, depth - 1);
    assert_eq!(value, &JsonValue::Array(vec![]));
}
