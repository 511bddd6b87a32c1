//! The parser: recursive descent over a token sequence.
//!
//! What the parser builds is defined by the `parse_*` functions below, over a
//! token sequence and a position in it, one for each production of the
//! grammar. Each says what is built from the position and where the reading
//! stops, on success and on failure alike.
//!
//! A document is an object or an array. Between the members of an object,
//! and between the items of an array, the separator may be missing, and one
//! may stand before the closing bracket. Tokens after the document are not
//! looked at.

use vstd::prelude::*;
use crate::error::{JsonError, ParserError, SpecJsonError, SpecParserError};
use crate::lexer::{tokenize, Lexer};
use crate::reading::{lemma_after_after, result_view, Reading};
use crate::token::{SpecToken, Token};
use crate::value::pair_view;
pub use crate::value::{JsonValue, SpecJson};

verus! {

/// What the parser built from a position, and the position at which it stopped.
pub type Parse<T> = Reading<T, SpecParserError>;

/// The token at `i`, or `None` past the end.
pub open spec fn token_at(t: Seq<SpecToken>, i: int) -> Option<SpecToken> {
    if 0 <= i < t.len() {
        Some(t[i])
    } else {
        None
    }
}

/// The position after the separator at `i`, or `i` where none stands there.
pub open spec fn skip_separator(t: Seq<SpecToken>, i: int) -> int {
    if token_at(t, i) == Some(SpecToken::ValueSeperator) {
        i + 1
    } else {
        i
    }
}

/// Reads one value: an object, an array or a scalar. Any other token, and
/// the end of the tokens, is an error that names what was found.
pub open spec fn parse_value(t: Seq<SpecToken>, i: int) -> Parse<SpecJson>
    decreases t.len() - i, 1int,
{
    match token_at(t, i) {
        Some(SpecToken::BeginObject) => parse_object(t, i),
        Some(SpecToken::BeginArray) => parse_array(t, i),
        Some(SpecToken::ValueString(text)) => Parse {
            result: Ok(SpecJson::String(text)),
            end: i + 1,
        },
        Some(SpecToken::ValueNumber(number)) => Parse {
            result: Ok(SpecJson::Number(number)),
            end: i + 1,
        },
        Some(SpecToken::ValueBoolean(b)) => Parse { result: Ok(SpecJson::Boolean(b)), end: i + 1 },
        Some(SpecToken::ValueNil) => Parse { result: Ok(SpecJson::Null), end: i + 1 },
        found => Parse { result: Err(SpecParserError::UnexpectedToken(found)), end: i },
    }
}

/// Reads an object, from its opening brace at `i`. Any other token there,
/// and the end of the tokens, is an error that names what was found.
pub open spec fn parse_object(t: Seq<SpecToken>, i: int) -> Parse<SpecJson>
    decreases t.len() - i, 0int,
{
    match token_at(t, i) {
        Some(SpecToken::BeginObject) => {
            let members = parse_members(t, i + 1);
            Parse {
                result: match members.result {
                    Ok(pairs) => Ok(SpecJson::Object(pairs)),
                    Err(e) => Err(e),
                },
                end: members.end,
            }
        },
        found => Parse { result: Err(SpecParserError::UnexpectedToken(found)), end: i },
    }
}

/// Reads the members of an object up to and with its closing brace. A member
/// is a string, the name separator and a value; a value separator after it
/// is passed over.
pub open spec fn parse_members(t: Seq<SpecToken>, i: int) -> Parse<Seq<(Seq<char>, SpecJson)>>
    decreases t.len() - i, 2int,
{
    match token_at(t, i) {
        Some(SpecToken::EndObject) => Parse { result: Ok(Seq::empty()), end: i + 1 },
        Some(SpecToken::ValueString(key)) => {
            if token_at(t, i + 1) != Some(SpecToken::NameSeperator) {
                Parse {
                    result: Err(SpecParserError::UnexpectedToken(Some(SpecToken::NameSeperator))),
                    end: i + 1,
                }
            } else {
                let value = parse_value(t, i + 2);
                match value.result {
                    Ok(v) => {
                        let next = skip_separator(t, value.end);
                        // A value ends after where it began and inside the tokens: the
                        // other branch is never taken.
                        if i < next <= t.len() {
                            parse_members(t, next).after(seq![(key, v)])
                        } else {
                            Parse { result: Err(SpecParserError::UnexpectedToken(None)), end: i }
                        }
                    },
                    Err(e) => Parse { result: Err(e), end: value.end },
                }
            }
        },
        found => Parse { result: Err(SpecParserError::UnexpectedToken(found)), end: i },
    }
}

/// Reads an array, from its opening bracket at `i`. Any other token there,
/// and the end of the tokens, is an error that names what was found.
pub open spec fn parse_array(t: Seq<SpecToken>, i: int) -> Parse<SpecJson>
    decreases t.len() - i, 0int,
{
    match token_at(t, i) {
        Some(SpecToken::BeginArray) => {
            let elements = parse_elements(t, i + 1);
            Parse {
                result: match elements.result {
                    Ok(items) => Ok(SpecJson::Array(items)),
                    Err(e) => Err(e),
                },
                end: elements.end,
            }
        },
        found => Parse { result: Err(SpecParserError::UnexpectedToken(found)), end: i },
    }
}

/// Reads the items of an array up to and with its closing bracket. A value
/// separator after an item is passed over.
pub open spec fn parse_elements(t: Seq<SpecToken>, i: int) -> Parse<Seq<SpecJson>>
    decreases t.len() - i, 2int,
{
    match token_at(t, i) {
        Some(SpecToken::EndArray) => Parse { result: Ok(Seq::empty()), end: i + 1 },
        _ => {
            let value = parse_value(t, i);
            match value.result {
                Ok(v) => {
                    let next = skip_separator(t, value.end);
                    // A value ends after where it began and inside the tokens: the
                    // other branch is never taken.
                    if i < next <= t.len() {
                        parse_elements(t, next).after(seq![v])
                    } else {
                        Parse { result: Err(SpecParserError::UnexpectedToken(None)), end: i }
                    }
                },
                Err(e) => Parse { result: Err(e), end: value.end },
            }
        },
    }
}

/// Reads a document: an object or an array. Any other first token, and an
/// empty sequence, is an error that names what was found.
pub open spec fn parse_document(t: Seq<SpecToken>, i: int) -> Parse<SpecJson> {
    match token_at(t, i) {
        Some(SpecToken::BeginObject) => parse_object(t, i),
        Some(SpecToken::BeginArray) => parse_array(t, i),
        found => Parse { result: Err(SpecParserError::UnexpectedStart(found)), end: i },
    }
}

/// The document that a text holds, or the first error met in tokenizing or
/// parsing it.
pub open spec fn parse_text(text: Seq<char>) -> Result<SpecJson, SpecJsonError> {
    match tokenize(text) {
        Ok(tokens) => match parse_document(tokens, 0).result {
            Ok(value) => Ok(value),
            Err(e) => Err(SpecJsonError::ParserError(e)),
        },
        Err(e) => Err(SpecJsonError::LexerError(e)),
    }
}

/// Parsing stays inside the tokens, and moves forward unless it fails.
pub proof fn lemma_parse_value_bounds(t: Seq<SpecToken>, i: int)
    requires
        0 <= i <= t.len(),
    ensures
        i <= parse_value(t, i).end <= t.len(),
        parse_value(t, i).result is Ok ==> i < parse_value(t, i).end,
    decreases t.len() - i, 1int,
{
    match token_at(t, i) {
        Some(SpecToken::BeginObject) => lemma_parse_members_bounds(t, i + 1),
        Some(SpecToken::BeginArray) => lemma_parse_elements_bounds(t, i + 1),
        _ => {},
    }
}

/// Reading the members of an object stays inside the tokens, and moves
/// forward unless it fails.
pub proof fn lemma_parse_members_bounds(t: Seq<SpecToken>, i: int)
    requires
        0 <= i <= t.len(),
    ensures
        i <= parse_members(t, i).end <= t.len(),
        parse_members(t, i).result is Ok ==> i < parse_members(t, i).end,
    decreases t.len() - i, 2int,
{
    if token_at(t, i) is Some && token_at(t, i)->0 is ValueString && token_at(t, i + 1) == Some(
        SpecToken::NameSeperator,
    ) {
        lemma_parse_value_bounds(t, i + 2);
        let value = parse_value(t, i + 2);
        if value.result is Ok {
            lemma_parse_members_bounds(t, skip_separator(t, value.end));
        }
    }
}

/// Reading the items of an array stays inside the tokens, and moves forward
/// unless it fails.
pub proof fn lemma_parse_elements_bounds(t: Seq<SpecToken>, i: int)
    requires
        0 <= i <= t.len(),
    ensures
        i <= parse_elements(t, i).end <= t.len(),
        parse_elements(t, i).result is Ok ==> i < parse_elements(t, i).end,
    decreases t.len() - i, 2int,
{
    if token_at(t, i) != Some(SpecToken::EndArray) {
        lemma_parse_value_bounds(t, i);
        let value = parse_value(t, i);
        if value.result is Ok {
            lemma_parse_elements_bounds(t, skip_separator(t, value.end));
        }
    }
}

/// A cursor over a token sequence.
#[derive(Debug)]
pub struct Parser {
    tokens: Vec<Token>,
    pos: usize,
}

impl Parser {
    #[verifier::type_invariant]
    spec fn in_bounds(self) -> bool {
        self.pos <= self.tokens.len()
    }

    /// All the tokens, read or not.
    pub closed spec fn tokens(&self) -> Seq<SpecToken> {
        self.tokens.deep_view()
    }

    /// How many tokens have been read.
    pub closed spec fn position(&self) -> int {
        self.pos as int
    }

    /// A cursor at the start of `tokens`.
    pub fn new(tokens: Vec<Token>) -> (parser: Parser)
        ensures
            parser.tokens() == tokens.deep_view(),
            parser.position() == 0,
    {
        Parser { tokens, pos: 0 }
    }

    /// Reads `token` if it is the next one; fails, naming `token`, if not.
    pub fn expect_token(&mut self, token: Token) -> (result: Result<(), ParserError>)
        ensures
            final(self).tokens() == old(self).tokens(),
            0 <= old(self).position() <= old(self).tokens().len(),
            result_view(result) == (if token_at(old(self).tokens(), old(self).position()) == Some(
                token@,
            ) {
                Ok::<(), SpecParserError>(())
            } else {
                Err::<(), SpecParserError>(SpecParserError::UnexpectedToken(Some(token@)))
            }),
            final(self).position() == old(self).position() + (if result is Ok {
                1int
            } else {
                0int
            }),
    {
        proof {
            use_type_invariant(&*self);
        }
        if self.pos < self.tokens.len() && self.tokens[self.pos] == token {
            self.pos += 1;
            Ok(())
        } else {
            Err(ParserError::UnexpectedToken(Some(token)))
        }
    }

    /// Reads one value.
    pub fn parse_value(&mut self) -> (result: Result<JsonValue, ParserError>)
        ensures
            final(self).tokens() == old(self).tokens(),
            result_view(result) == parse_value(old(self).tokens(), old(self).position()).result,
            final(self).position() == parse_value(old(self).tokens(), old(self).position()).end,
        decreases old(self).tokens().len() - old(self).position(), 1int,
    {
        proof {
            use_type_invariant(&*self);
        }
        if self.pos >= self.tokens.len() {
            return Err(ParserError::UnexpectedToken(None));
        }
        match &self.tokens[self.pos] {
            Token::BeginObject => self.parse_object(),
            Token::BeginArray => self.parse_array(),
            Token::ValueString(text) => {
                let value = JsonValue::String(text.clone());
                self.pos += 1;
                Ok(value)
            },
            Token::ValueNumber(number) => {
                let value = JsonValue::Number(number.clone());
                self.pos += 1;
                Ok(value)
            },
            Token::ValueBoolean(b) => {
                let value = JsonValue::Boolean(*b);
                self.pos += 1;
                Ok(value)
            },
            Token::ValueNil => {
                self.pos += 1;
                Ok(JsonValue::Null)
            },
            found => Err(ParserError::UnexpectedToken(Some(found.clone()))),
        }
    }

    /// Reads an object, from its opening brace.
    pub fn parse_object(&mut self) -> (result: Result<JsonValue, ParserError>)
        ensures
            final(self).tokens() == old(self).tokens(),
            result_view(result) == parse_object(old(self).tokens(), old(self).position()).result,
            final(self).position() == parse_object(old(self).tokens(), old(self).position()).end,
        decreases old(self).tokens().len() - old(self).position(), 0int,
    {
        proof {
            use_type_invariant(&*self);
        }
        let ghost t = self.tokens.deep_view();
        let ghost start = self.pos as int;
        if self.pos >= self.tokens.len() {
            return Err(ParserError::UnexpectedToken(None));
        }
        match &self.tokens[self.pos] {
            Token::BeginObject => {},
            found => {
                return Err(ParserError::UnexpectedToken(Some(found.clone())));
            },
        }
        self.pos += 1;
        let mut pairs: Vec<(String, JsonValue)> = Vec::new();
        let ghost mut built: Seq<(Seq<char>, SpecJson)> = Seq::empty();
        proof {
            lemma_after_after(parse_members(t, start + 1), Seq::empty(), Seq::empty());
        }
        loop
            invariant
                t == old(self).tokens.deep_view(),
                start == old(self).pos,
                self.tokens.deep_view() == t,
                start < self.pos <= self.tokens.len(),
                token_at(t, start) == Some(SpecToken::BeginObject),
                built.len() == pairs.len(),
                forall|k: int|
                    0 <= k < built.len() ==> #[trigger] built[k] == pair_view(pairs[k]),
                parse_members(t, start + 1) == parse_members(t, self.pos as int).after(built),
            decreases self.tokens.len() - self.pos,
        {
            if self.pos >= self.tokens.len() {
                return Err(ParserError::UnexpectedToken(None));
            }
            let ghost at = self.pos as int;
            let key = match &self.tokens[self.pos] {
                Token::EndObject => {
                    self.pos += 1;
                    let value = JsonValue::Object(pairs);
                    assert(value@->Object_0 =~= built);
                    return Ok(value);
                },
                Token::ValueString(key) => key.clone(),
                found => {
                    return Err(ParserError::UnexpectedToken(Some(found.clone())));
                },
            };
            self.pos += 1;
            match self.expect_token(Token::NameSeperator) {
                Ok(()) => {},
                Err(e) => {
                    return Err(e);
                },
            }
            let value = match self.parse_value() {
                Ok(value) => value,
                Err(e) => {
                    return Err(e);
                },
            };
            proof {
                use_type_invariant(&*self);
                lemma_parse_value_bounds(t, at + 2);
                lemma_after_after(
                    parse_members(t, skip_separator(t, self.pos as int)),
                    built,
                    seq![(key@, value@)],
                );
                built = built + seq![(key@, value@)];
            }
            pairs.push((key, value));
            if self.pos < self.tokens.len() && matches!(
                self.tokens[self.pos],
                Token::ValueSeperator
            ) {
                self.pos += 1;
            }
        }
    }

    /// Reads an array, from its opening bracket.
    pub fn parse_array(&mut self) -> (result: Result<JsonValue, ParserError>)
        ensures
            final(self).tokens() == old(self).tokens(),
            result_view(result) == parse_array(old(self).tokens(), old(self).position()).result,
            final(self).position() == parse_array(old(self).tokens(), old(self).position()).end,
        decreases old(self).tokens().len() - old(self).position(), 0int,
    {
        proof {
            use_type_invariant(&*self);
        }
        let ghost t = self.tokens.deep_view();
        let ghost start = self.pos as int;
        if self.pos >= self.tokens.len() {
            return Err(ParserError::UnexpectedToken(None));
        }
        match &self.tokens[self.pos] {
            Token::BeginArray => {},
            found => {
                return Err(ParserError::UnexpectedToken(Some(found.clone())));
            },
        }
        self.pos += 1;
        let mut items: Vec<JsonValue> = Vec::new();
        let ghost mut built: Seq<SpecJson> = Seq::empty();
        proof {
            lemma_after_after(parse_elements(t, start + 1), Seq::empty(), Seq::empty());
        }
        loop
            invariant
                t == old(self).tokens.deep_view(),
                start == old(self).pos,
                self.tokens.deep_view() == t,
                start < self.pos <= self.tokens.len(),
                token_at(t, start) == Some(SpecToken::BeginArray),
                built.len() == items.len(),
                forall|k: int| 0 <= k < built.len() ==> #[trigger] built[k] == items[k]@,
                parse_elements(t, start + 1) == parse_elements(t, self.pos as int).after(built),
            decreases self.tokens.len() - self.pos,
        {
            let ghost at = self.pos as int;
            if self.pos < self.tokens.len() && matches!(self.tokens[self.pos], Token::EndArray) {
                self.pos += 1;
                let value = JsonValue::Array(items);
                assert(value@->Array_0 =~= built);
                return Ok(value);
            }
            let value = match self.parse_value() {
                Ok(value) => value,
                Err(e) => {
                    return Err(e);
                },
            };
            proof {
                use_type_invariant(&*self);
                lemma_parse_value_bounds(t, at);
                lemma_after_after(
                    parse_elements(t, skip_separator(t, self.pos as int)),
                    built,
                    seq![value@],
                );
                built = built + seq![value@];
            }
            items.push(value);
            if self.pos < self.tokens.len() && matches!(
                self.tokens[self.pos],
                Token::ValueSeperator
            ) {
                self.pos += 1;
            }
        }
    }

    /// Reads a document: an object or an array.
    pub fn parse(&mut self) -> (result: Result<JsonValue, ParserError>)
        ensures
            final(self).tokens() == old(self).tokens(),
            result_view(result) == parse_document(old(self).tokens(), old(self).position()).result,
            final(self).position() == parse_document(old(self).tokens(), old(self).position()).end,
    {
        proof {
            use_type_invariant(&*self);
        }
        if self.pos >= self.tokens.len() {
            return Err(ParserError::UnexpectedStart(None));
        }
        match &self.tokens[self.pos] {
            Token::BeginObject => self.parse_object(),
            Token::BeginArray => self.parse_array(),
            found => Err(ParserError::UnexpectedStart(Some(found.clone()))),
        }
    }

    /// Tokenizes and parses the document in `json`.
    pub fn parse_json(json: &str) -> (result: Result<JsonValue, JsonError>)
        ensures
            result_view(result) == parse_text(json@),
    {
        let mut lexer = Lexer::new(json);
        let tokens = match lexer.lex() {
            Ok(tokens) => tokens,
            Err(e) => {
                return Err(JsonError::LexerError(e));
            },
        };
        let mut parser = Parser::new(tokens);
        match parser.parse() {
            Ok(value) => Ok(value),
            Err(e) => Err(JsonError::ParserError(e)),
        }
    }
}

impl Clone for Parser {
    fn clone(&self) -> (parser: Parser)
        ensures
            parser.tokens() == self.tokens(),
            parser.position() == self.position(),
    {
        proof {
            use_type_invariant(self);
        }
        let mut tokens: Vec<Token> = Vec::new();
        let mut i: usize = 0;
        while i < self.tokens.len()
            invariant
                i <= self.tokens.len(),
                tokens.len() == i,
                forall|k: int| 0 <= k < i ==> tokens[k] == self.tokens[k],
            decreases self.tokens.len() - i,
        {
            tokens.push(self.tokens[i].clone());
            i += 1;
        }
        assert(tokens.deep_view() =~= self.tokens.deep_view());
        Parser { tokens, pos: self.pos }
    }
}

} // verus!
