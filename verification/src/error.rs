//! The errors of the three stages: tokenizing, parsing and navigating a value.

use vstd::prelude::*;
use crate::text::{decimal, decimal_text};
use crate::token::{SpecToken, Token};

verus! {

/// Why a text could not be cut into tokens.
#[derive(Debug, PartialEq)]
pub enum LexerError {
    /// A character that begins no token.
    UnexpectedCharacter(char),
    /// A character after `\` that names no escape.
    InvalidEscapeSquence(char),
    /// A run of characters that is no number, boolean or null literal.
    InvalidValue(String),
    /// The text ended inside a string literal.
    UnexpectedEndOfLine,
}

pub enum SpecLexerError {
    UnexpectedCharacter(char),
    InvalidEscapeSquence(char),
    InvalidValue(Seq<char>),
    UnexpectedEndOfLine,
}

impl View for LexerError {
    type V = SpecLexerError;

    open spec fn view(&self) -> SpecLexerError {
        match self {
            LexerError::UnexpectedCharacter(c) => SpecLexerError::UnexpectedCharacter(*c),
            LexerError::InvalidEscapeSquence(c) => SpecLexerError::InvalidEscapeSquence(*c),
            LexerError::InvalidValue(run) => SpecLexerError::InvalidValue(run@),
            LexerError::UnexpectedEndOfLine => SpecLexerError::UnexpectedEndOfLine,
        }
    }
}

impl SpecLexerError {
    /// The error in words.
    pub open spec fn message(self) -> Seq<char> {
        match self {
            SpecLexerError::UnexpectedCharacter(c) => "Unexpected character: "@.push(c),
            SpecLexerError::InvalidEscapeSquence(c) => "Invalid escape sequence: "@.push(c),
            SpecLexerError::InvalidValue(run) => "Invalid value: "@ + run,
            SpecLexerError::UnexpectedEndOfLine => "Unexpected end of line"@,
        }
    }
}

impl LexerError {
    /// The error in words.
    pub fn message(&self) -> (text: String)
        ensures
            text@ == self@.message(),
    {
        match self {
            LexerError::UnexpectedCharacter(c) => {
                let mut text = String::from_str("Unexpected character: ");
                text.push(*c);
                text
            },
            LexerError::InvalidEscapeSquence(c) => {
                let mut text = String::from_str("Invalid escape sequence: ");
                text.push(*c);
                text
            },
            LexerError::InvalidValue(run) => {
                let mut text = String::from_str("Invalid value: ");
                text.append(run.as_str());
                text
            },
            LexerError::UnexpectedEndOfLine => String::from_str("Unexpected end of line"),
        }
    }
}

/// Why a token sequence is no document. The token is the one that was
/// expected and missing or the one that was found out of place; `None` stands
/// for the end of the tokens.
#[derive(Debug, PartialEq)]
pub enum ParserError {
    UnexpectedToken(Option<Token>),
    UnexpectedStart(Option<Token>),
}

pub enum SpecParserError {
    UnexpectedToken(Option<SpecToken>),
    UnexpectedStart(Option<SpecToken>),
}

impl View for ParserError {
    type V = SpecParserError;

    open spec fn view(&self) -> SpecParserError {
        match self {
            ParserError::UnexpectedToken(token) => SpecParserError::UnexpectedToken(
                token.deep_view(),
            ),
            ParserError::UnexpectedStart(token) => SpecParserError::UnexpectedStart(
                token.deep_view(),
            ),
        }
    }
}

/// Why a value could not be navigated as asked.
#[derive(Debug, PartialEq)]
pub enum ParsedJsonError {
    KeyNotFound(String),
    IndexOutOfBounds(usize),
    InvalidMethodCall(String),
    UnexpectedType,
}

pub enum SpecParsedJsonError {
    KeyNotFound(Seq<char>),
    IndexOutOfBounds(usize),
    InvalidMethodCall(Seq<char>),
    UnexpectedType,
}

impl View for ParsedJsonError {
    type V = SpecParsedJsonError;

    open spec fn view(&self) -> SpecParsedJsonError {
        match self {
            ParsedJsonError::KeyNotFound(key) => SpecParsedJsonError::KeyNotFound(key@),
            ParsedJsonError::IndexOutOfBounds(index) => SpecParsedJsonError::IndexOutOfBounds(
                *index,
            ),
            ParsedJsonError::InvalidMethodCall(message) => SpecParsedJsonError::InvalidMethodCall(
                message@,
            ),
            ParsedJsonError::UnexpectedType => SpecParsedJsonError::UnexpectedType,
        }
    }
}

impl SpecParsedJsonError {
    /// The error in words.
    pub open spec fn message(self) -> Seq<char> {
        match self {
            SpecParsedJsonError::KeyNotFound(key) => "Key '"@ + key + "' not found in JSON object"@,
            SpecParsedJsonError::IndexOutOfBounds(index) => "Index "@ + decimal(index as nat)
                + " is out of bounds in JSON array"@,
            SpecParsedJsonError::InvalidMethodCall(message) => message,
            SpecParsedJsonError::UnexpectedType => "Unexpected type in JSON value"@,
        }
    }
}

impl ParsedJsonError {
    /// The error in words.
    pub fn message(&self) -> (text: String)
        ensures
            text@ == self@.message(),
    {
        match self {
            ParsedJsonError::KeyNotFound(key) => {
                let mut text = String::from_str("Key '");
                text.append(key.as_str());
                text.append("' not found in JSON object");
                text
            },
            ParsedJsonError::IndexOutOfBounds(index) => {
                let mut text = String::from_str("Index ");
                text.append(decimal_text(*index).as_str());
                text.append(" is out of bounds in JSON array");
                text
            },
            ParsedJsonError::InvalidMethodCall(message) => message.clone(),
            ParsedJsonError::UnexpectedType => String::from_str("Unexpected type in JSON value"),
        }
    }
}

/// Any error of the library, by the stage that raised it.
#[derive(Debug, PartialEq)]
pub enum JsonError {
    LexerError(LexerError),
    ParserError(ParserError),
    ParsedJsonError(ParsedJsonError),
}

pub enum SpecJsonError {
    LexerError(SpecLexerError),
    ParserError(SpecParserError),
    ParsedJsonError(SpecParsedJsonError),
}

impl View for JsonError {
    type V = SpecJsonError;

    open spec fn view(&self) -> SpecJsonError {
        match self {
            JsonError::LexerError(e) => SpecJsonError::LexerError(e@),
            JsonError::ParserError(e) => SpecJsonError::ParserError(e@),
            JsonError::ParsedJsonError(e) => SpecJsonError::ParsedJsonError(e@),
        }
    }
}

impl From<LexerError> for JsonError {
    fn from(err: LexerError) -> (e: JsonError) {
        JsonError::LexerError(err)
    }
}

impl vstd::std_specs::convert::FromSpecImpl<LexerError> for JsonError {
    open spec fn obeys_from_spec() -> bool {
        true
    }

    open spec fn from_spec(err: LexerError) -> JsonError {
        JsonError::LexerError(err)
    }
}

impl From<ParserError> for JsonError {
    fn from(err: ParserError) -> (e: JsonError) {
        JsonError::ParserError(err)
    }
}

impl vstd::std_specs::convert::FromSpecImpl<ParserError> for JsonError {
    open spec fn obeys_from_spec() -> bool {
        true
    }

    open spec fn from_spec(err: ParserError) -> JsonError {
        JsonError::ParserError(err)
    }
}

impl From<ParsedJsonError> for JsonError {
    fn from(err: ParsedJsonError) -> (e: JsonError) {
        JsonError::ParsedJsonError(err)
    }
}

impl vstd::std_specs::convert::FromSpecImpl<ParsedJsonError> for JsonError {
    open spec fn obeys_from_spec() -> bool {
        true
    }

    open spec fn from_spec(err: ParsedJsonError) -> JsonError {
        JsonError::ParsedJsonError(err)
    }
}

} // verus!
