//! A JSON tokenizer and recursive-descent parser with a navigable value tree.
//!
//! Text is first cut into [`token::Token`]s by [`lexer::Lexer`], then built
//! into a [`parser::JsonValue`] by [`parser::Parser`];
//! [`parser::Parser::parse_json`] does both. Every step is specified over
//! plain sequences of characters and tokens, and proved against that
//! specification. [`roundtrip`] and [`spelling`] prove that a document which
//! is written down is read back as it was.
//!
//! A number is kept as the numeral that was written, a [`number::Numeral`]:
//! the library itself computes with no floating point.

pub mod reading;
pub mod text;
pub mod number;
pub mod token;
pub mod error;
pub mod lexer;
pub mod value;
pub mod parser;
pub mod spelling;
pub mod roundtrip;
