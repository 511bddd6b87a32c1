use jsruston::lexer::Lexer;
use jsruston::number::Numeral;
use jsruston::parser::{JsonValue, Parser};
use jsruston::token::Token;

fn number(text: &str) -> JsonValue {
    JsonValue::Number(Numeral::parse(text).unwrap())
}

fn string(text: &str) -> JsonValue {
    JsonValue::String(text.to_string())
}

/// The plain writing of a value as tokens.
fn write_value(value: &JsonValue, tokens: &mut Vec<Token>) {
    match value {
        JsonValue::Object(pairs) => {
            tokens.push(Token::BeginObject);
            for (k, pair) in pairs.iter().enumerate() {
                tokens.push(Token::ValueString(pair.0.clone()));
                tokens.push(Token::NameSeperator);
                write_value(&pair.1, tokens);
                if k + 1 < pairs.len() {
                    tokens.push(Token::ValueSeperator);
                }
            }
            tokens.push(Token::EndObject);
        }
        JsonValue::Array(items) => {
            tokens.push(Token::BeginArray);
            for (k, item) in items.iter().enumerate() {
                write_value(item, tokens);
                if k + 1 < items.len() {
                    tokens.push(Token::ValueSeperator);
                }
            }
            tokens.push(Token::EndArray);
        }
        JsonValue::String(text) => tokens.push(Token::ValueString(text.clone())),
        JsonValue::Number(n) => tokens.push(Token::ValueNumber(n.clone())),
        JsonValue::Boolean(b) => tokens.push(Token::ValueBoolean(*b)),
        JsonValue::Null => tokens.push(Token::ValueNil),
    }
}

/// The spelling of a token.
fn spell_token(token: &Token) -> String {
    match token {
        Token::BeginArray => "[".to_string(),
        Token::BeginObject => "{".to_string(),
        Token::EndArray => "]".to_string(),
        Token::EndObject => "}".to_string(),
        Token::NameSeperator => ":".to_string(),
        Token::ValueSeperator => ",".to_string(),
        Token::ValueNumber(n) => n.as_str().to_string(),
        Token::ValueBoolean(b) => format!("{}", b),
        Token::ValueNil => "null".to_string(),
        Token::ValueString(text) => {
            let mut spelled = String::from("\"");
            for c in text.chars() {
                match c {
                    '\n' => spelled.push_str("\\n"),
                    '\r' => spelled.push_str("\\r"),
                    '\t' => spelled.push_str("\\t"),
                    '\\' => spelled.push_str("\\\\"),
                    '"' => spelled.push_str("\\\""),
                    other => spelled.push(other),
                }
            }
            spelled.push('"');
            spelled
        }
    }
}

/// The tokens spelled out, the gap at `k` before the token at `k`.
fn spell_tokens(tokens: &[Token], gaps: &[&str]) -> String {
    let mut text = String::new();
    for (k, token) in tokens.iter().enumerate() {
        text.push_str(gaps[k % gaps.len()]);
        text.push_str(&spell_token(token));
    }
    text.push_str(gaps[tokens.len() % gaps.len()]);
    text
}

fn documents() -> Vec<JsonValue> {
    vec![
        JsonValue::Object(vec![]),
        JsonValue::Array(vec![]),
        JsonValue::Array(vec![number("1"), number("-2.5e3"), number("0")]),
        JsonValue::Array(vec![JsonValue::Array(vec![JsonValue::Array(vec![])])]),
        JsonValue::Object(vec![
            ("".to_string(), string("")),
            ("k\"ey".to_string(), string("a\\b\n\r\t\"c\"")),
            ("k\"ey".to_string(), JsonValue::Null),
            ("true".to_string(), JsonValue::Boolean(true)),
            ("false".to_string(), JsonValue::Boolean(false)),
            ("1".to_string(), number("1")),
            (
                "nested".to_string(),
                JsonValue::Object(vec![(
                    "list".to_string(),
                    JsonValue::Array(vec![
                        number("10"),
                        string("two, three: {four}"),
                        JsonValue::Object(vec![("é".to_string(), string("ü ☃"))]),
                        JsonValue::Null,
                    ]),
                )]),
            ),
        ]),
    ]
}

#[test]
fn written_tokens_parse_back() {
    for document in documents() {
        let mut tokens = Vec::new();
        write_value(&document, &mut tokens);
        assert_eq!(Parser::new(tokens).parse(), Ok(document));
    }
}

#[test]
fn spelled_tokens_tokenize_back() {
    for document in documents() {
        let mut tokens = Vec::new();
        write_value(&document, &mut tokens);
        for gaps in [&[""][..], &[" "][..], &["", "\n", "  ", " \n "][..]] {
            let text = spell_tokens(&tokens, gaps);
            assert_eq!(Lexer::new(&text).lex().as_ref(), Ok(&tokens), "on {:?}", text);
        }
    }
}

#[test]
fn spelled_documents_parse_back() {
    for document in documents() {
        let mut tokens = Vec::new();
        write_value(&document, &mut tokens);
        for gaps in [&[""][..], &["\n"][..], &[" ", "", "\n\n"][..]] {
            let text = spell_tokens(&tokens, gaps);
            assert_eq!(Parser::parse_json(&text).as_ref(), Ok(&document), "on {:?}", text);
        }
    }
}

#[test]
fn parsed_documents_can_be_written_and_parsed_again() {
    let texts = [
        r#"{"a": 1 "b": [2 3,], "c": {"d": "e\\f",},}"#,
        "[[1.0, 2e0] [\"x\ny\"]\n{\"k\":null}]",
        r#"{"foo":[1,2,{"bar":2}]}"#,
    ];
    for text in texts {
        let document = Parser::parse_json(text).unwrap();
        let mut tokens = Vec::new();
        write_value(&document, &mut tokens);
        let again = spell_tokens(&tokens, &["", " "]);
        assert_eq!(Parser::parse_json(&again), Ok(document));
    }
}

#[test]
fn numbers_side_by_side_need_a_gap() {
    let tokens = vec![
        Token::ValueNumber(Numeral::parse("1").unwrap()),
        Token::ValueNumber(Numeral::parse("2").unwrap()),
    ];
    assert_eq!(
        Lexer::new(&spell_tokens(&tokens, &[""])).lex(),
        Ok(vec![Token::ValueNumber(Numeral::parse("12").unwrap())])
    );
    assert_eq!(Lexer::new(&spell_tokens(&tokens, &[" "])).lex(), Ok(tokens));
}
