//! The lexical units of JSON text.

use vstd::prelude::*;
use crate::number::{is_numeral, Numeral};

verus! {

/// A lexical unit: a delimiter, a separator or a literal.
#[derive(Debug)]
pub enum Token {
    /// `[`
    BeginArray,
    /// `{`
    BeginObject,
    /// `]`
    EndArray,
    /// `}`
    EndObject,
    /// `:`
    NameSeperator,
    /// `,`
    ValueSeperator,
    ValueNumber(Numeral),
    ValueBoolean(bool),
    ValueString(String),
    ValueNil,
}

/// A token as a mathematical value: texts are sequences of characters.
pub enum SpecToken {
    BeginArray,
    BeginObject,
    EndArray,
    EndObject,
    NameSeperator,
    ValueSeperator,
    ValueNumber(Seq<char>),
    ValueBoolean(bool),
    ValueString(Seq<char>),
    ValueNil,
}

/// Every number among the tokens is a numeral.
pub open spec fn holds_numerals(tokens: Seq<SpecToken>) -> bool {
    forall|k: int|
        0 <= k < tokens.len() ==> (#[trigger] tokens[k] matches SpecToken::ValueNumber(n)
            ==> is_numeral(n))
}

impl View for Token {
    type V = SpecToken;

    open spec fn view(&self) -> SpecToken {
        match self {
            Token::BeginArray => SpecToken::BeginArray,
            Token::BeginObject => SpecToken::BeginObject,
            Token::EndArray => SpecToken::EndArray,
            Token::EndObject => SpecToken::EndObject,
            Token::NameSeperator => SpecToken::NameSeperator,
            Token::ValueSeperator => SpecToken::ValueSeperator,
            Token::ValueNumber(n) => SpecToken::ValueNumber(n@),
            Token::ValueBoolean(b) => SpecToken::ValueBoolean(*b),
            Token::ValueString(s) => SpecToken::ValueString(s@),
            Token::ValueNil => SpecToken::ValueNil,
        }
    }
}

impl DeepView for Token {
    type V = SpecToken;

    open spec fn deep_view(&self) -> SpecToken {
        self@
    }
}

impl Clone for Token {
    fn clone(&self) -> (token: Token)
        ensures
            token == *self,
    {
        match self {
            Token::BeginArray => Token::BeginArray,
            Token::BeginObject => Token::BeginObject,
            Token::EndArray => Token::EndArray,
            Token::EndObject => Token::EndObject,
            Token::NameSeperator => Token::NameSeperator,
            Token::ValueSeperator => Token::ValueSeperator,
            Token::ValueNumber(n) => Token::ValueNumber(n.clone()),
            Token::ValueBoolean(b) => Token::ValueBoolean(*b),
            Token::ValueString(s) => Token::ValueString(s.clone()),
            Token::ValueNil => Token::ValueNil,
        }
    }
}

impl PartialEq for Token {
    fn eq(&self, other: &Token) -> (equal: bool) {
        match self {
            Token::BeginArray => matches!(other, Token::BeginArray),
            Token::BeginObject => matches!(other, Token::BeginObject),
            Token::EndArray => matches!(other, Token::EndArray),
            Token::EndObject => matches!(other, Token::EndObject),
            Token::NameSeperator => matches!(other, Token::NameSeperator),
            Token::ValueSeperator => matches!(other, Token::ValueSeperator),
            Token::ValueNumber(a) => match other {
                Token::ValueNumber(b) => *a == *b,
                _ => false,
            },
            Token::ValueBoolean(a) => match other {
                Token::ValueBoolean(b) => *a == *b,
                _ => false,
            },
            Token::ValueString(a) => match other {
                Token::ValueString(b) => *a == *b,
                _ => false,
            },
            Token::ValueNil => matches!(other, Token::ValueNil),
        }
    }
}

impl vstd::std_specs::cmp::PartialEqSpecImpl for Token {
    open spec fn obeys_eq_spec() -> bool {
        true
    }

    open spec fn eq_spec(&self, other: &Token) -> bool {
        self@ == other@
    }
}

} // verus!
