//! The tokenizer: one pass over the characters, left to right, with one
//! character of lookahead.
//!
//! What the tokenizer yields is defined by the `scan_*` functions below, over
//! a text and a position in it. Each says what is read from the position and
//! where the reading stops, on success and on failure alike.
//!
//! Only the space and the newline are skipped between tokens. A string must
//! be closed before the text ends. The tokenizer does not look at how the
//! tokens fit together: brackets need not match and separators may be missing.

use vstd::prelude::*;
use crate::error::{LexerError, SpecLexerError};
use crate::number::{is_digit, is_numeral, is_numeral_range, Numeral};
use crate::reading::{lemma_after_after, result_view, Reading};
use crate::text::{chars_of, string_of};
use crate::token::{holds_numerals, SpecToken, Token};

verus! {

/// What the tokenizer read from a position, and the position at which it stopped.
pub type Scan<T> = Reading<T, SpecLexerError>;

/// The character that `\c` stands for inside a string literal.
pub open spec fn unescape(c: char) -> Option<char> {
    if c == 'n' {
        Some('\n')
    } else if c == 'r' {
        Some('\r')
    } else if c == 't' {
        Some('\t')
    } else if c == '\\' {
        Some('\\')
    } else if c == '"' {
        Some('"')
    } else {
        None
    }
}

/// Reads the rest of a string literal, from just after its opening quote:
/// the characters up to the first quote that no `\` escapes, with each escape
/// replaced by the character it stands for. A `\` before a character that
/// names no escape is an error, and so is the end of the text before the
/// closing quote.
pub open spec fn scan_string(s: Seq<char>, i: int) -> Scan<Seq<char>>
    decreases s.len() - i,
{
    if i >= s.len() {
        Scan { result: Err(SpecLexerError::UnexpectedEndOfLine), end: i }
    } else if s[i] == '"' {
        Scan { result: Ok(Seq::empty()), end: i + 1 }
    } else if s[i] == '\\' {
        if i + 1 >= s.len() {
            Scan { result: Err(SpecLexerError::UnexpectedEndOfLine), end: i + 1 }
        } else {
            match unescape(s[i + 1]) {
                Some(c) => scan_string(s, i + 2).after(seq![c]),
                None => Scan {
                    result: Err(SpecLexerError::InvalidEscapeSquence(s[i + 1])),
                    end: i + 2,
                },
            }
        }
    } else {
        scan_string(s, i + 1).after(seq![s[i]])
    }
}

/// The characters that a number literal is collected from.
pub open spec fn is_number_char(c: char) -> bool {
    is_digit(c) || c == '-' || c == '.' || c == 'e' || c == 'E'
}

/// Where the longest run of number characters that starts at `i` ends.
pub open spec fn number_end(s: Seq<char>, i: int) -> int
    decreases s.len() - i,
{
    if 0 <= i < s.len() && is_number_char(s[i]) {
        number_end(s, i + 1)
    } else {
        i
    }
}

/// The characters of `s` from `i` on: `n` of them, or fewer where the text ends.
pub open spec fn run_at(s: Seq<char>, i: int, n: int) -> Seq<char> {
    if i + n <= s.len() {
        s.subrange(i, i + n)
    } else {
        s.subrange(i, s.len() as int)
    }
}

/// Reads a boolean literal: four characters from a `t` on, five from an `f`
/// on, or as many as are left, which must spell `true` or `false`.
pub open spec fn scan_boolean(s: Seq<char>, i: int) -> Scan<bool> {
    if i >= s.len() {
        Scan { result: Err(SpecLexerError::InvalidValue(Seq::empty())), end: i }
    } else if s[i] == 't' {
        let run = run_at(s, i, 4);
        Scan {
            result: if run == "true"@ {
                Ok(true)
            } else {
                Err(SpecLexerError::InvalidValue(run))
            },
            end: i + run.len(),
        }
    } else if s[i] == 'f' {
        let run = run_at(s, i, 5);
        Scan {
            result: if run == "false"@ {
                Ok(false)
            } else {
                Err(SpecLexerError::InvalidValue(run))
            },
            end: i + run.len(),
        }
    } else {
        Scan { result: Err(SpecLexerError::UnexpectedCharacter(s[i])), end: i }
    }
}

/// Reads a null literal: four characters, or as many as are left, which must
/// spell `null`.
pub open spec fn scan_null(s: Seq<char>, i: int) -> Scan<SpecToken> {
    let run = run_at(s, i, 4);
    Scan {
        result: if run == "null"@ {
            Ok(SpecToken::ValueNil)
        } else {
            Err(SpecLexerError::InvalidValue(run))
        },
        end: i + run.len(),
    }
}

/// Reads a number literal: the longest run of number characters, which must
/// be a numeral.
pub open spec fn scan_number(s: Seq<char>, i: int) -> Scan<SpecToken> {
    let end = number_end(s, i);
    let run = s.subrange(i, end);
    Scan {
        result: if is_numeral(run) {
            Ok(SpecToken::ValueNumber(run))
        } else {
            Err(SpecLexerError::InvalidValue(run))
        },
        end,
    }
}

/// One step of the tokenizer at `i`, a position inside the text: the token
/// that begins there, or `None` where a space or a newline is skipped.
pub open spec fn scan_token(s: Seq<char>, i: int) -> Scan<Option<SpecToken>> {
    let c = s[i];
    if c == '{' {
        Scan { result: Ok(Some(SpecToken::BeginObject)), end: i + 1 }
    } else if c == '}' {
        Scan { result: Ok(Some(SpecToken::EndObject)), end: i + 1 }
    } else if c == '[' {
        Scan { result: Ok(Some(SpecToken::BeginArray)), end: i + 1 }
    } else if c == ']' {
        Scan { result: Ok(Some(SpecToken::EndArray)), end: i + 1 }
    } else if c == ':' {
        Scan { result: Ok(Some(SpecToken::NameSeperator)), end: i + 1 }
    } else if c == ',' {
        Scan { result: Ok(Some(SpecToken::ValueSeperator)), end: i + 1 }
    } else if c == '"' {
        let string = scan_string(s, i + 1);
        Scan {
            result: match string.result {
                Ok(value) => Ok(Some(SpecToken::ValueString(value))),
                Err(e) => Err(e),
            },
            end: string.end,
        }
    } else if is_digit(c) || c == '-' {
        let number = scan_number(s, i);
        Scan {
            result: match number.result {
                Ok(token) => Ok(Some(token)),
                Err(e) => Err(e),
            },
            end: number.end,
        }
    } else if c == 't' || c == 'f' {
        let boolean = scan_boolean(s, i);
        Scan {
            result: match boolean.result {
                Ok(value) => Ok(Some(SpecToken::ValueBoolean(value))),
                Err(e) => Err(e),
            },
            end: boolean.end,
        }
    } else if c == 'n' {
        let null = scan_null(s, i);
        Scan {
            result: match null.result {
                Ok(token) => Ok(Some(token)),
                Err(e) => Err(e),
            },
            end: null.end,
        }
    } else if c == ' ' || c == '\n' {
        Scan { result: Ok(None), end: i + 1 }
    } else {
        Scan { result: Err(SpecLexerError::UnexpectedCharacter(c)), end: i }
    }
}

/// Reads tokens from `i` to the end of the text, stopping at the first error.
pub open spec fn scan_tokens(s: Seq<char>, i: int) -> Scan<Seq<SpecToken>>
    decreases s.len() - i,
    via scan_tokens_decreases
{
    if i < 0 || i >= s.len() {
        Scan { result: Ok(Seq::empty()), end: i }
    } else {
        let step = scan_token(s, i);
        match step.result {
            Err(e) => Scan { result: Err(e), end: step.end },
            Ok(Some(token)) => scan_tokens(s, step.end).after(seq![token]),
            Ok(None) => scan_tokens(s, step.end),
        }
    }
}

#[via_fn]
proof fn scan_tokens_decreases(s: Seq<char>, i: int) {
    if 0 <= i < s.len() {
        lemma_scan_token_bounds(s, i);
    }
}

/// The tokens of a text, or the first error met in it.
pub open spec fn tokenize(text: Seq<char>) -> Result<Seq<SpecToken>, SpecLexerError> {
    scan_tokens(text, 0).result
}

/// A run of number characters ends inside the text, where the text ends or
/// at a character that is none; every character before that is one.
pub proof fn lemma_number_end(s: Seq<char>, i: int)
    requires
        0 <= i <= s.len(),
    ensures
        i <= number_end(s, i) <= s.len(),
        forall|k: int| i <= k < number_end(s, i) ==> is_number_char(#[trigger] s[k]),
        number_end(s, i) < s.len() ==> !is_number_char(s[number_end(s, i)]),
    decreases s.len() - i,
{
    if i < s.len() && is_number_char(s[i]) {
        lemma_number_end(s, i + 1);
    }
}

/// Reading a string moves forward and stays inside the text; on success it
/// has passed at least the closing quote.
pub proof fn lemma_scan_string_bounds(s: Seq<char>, i: int)
    requires
        0 <= i <= s.len(),
    ensures
        i <= scan_string(s, i).end <= s.len(),
        scan_string(s, i).result is Ok ==> i < scan_string(s, i).end,
    decreases s.len() - i,
{
    if i < s.len() && s[i] != '"' {
        if s[i] == '\\' {
            if i + 1 < s.len() && unescape(s[i + 1]) is Some {
                lemma_scan_string_bounds(s, i + 2);
            }
        } else {
            lemma_scan_string_bounds(s, i + 1);
        }
    }
}

/// One step of the tokenizer stays inside the text, and moves forward unless it fails.
pub proof fn lemma_scan_token_bounds(s: Seq<char>, i: int)
    requires
        0 <= i < s.len(),
    ensures
        i <= scan_token(s, i).end <= s.len(),
        scan_token(s, i).result is Ok ==> i < scan_token(s, i).end,
{
    let c = s[i];
    if c == '"' {
        lemma_scan_string_bounds(s, i + 1);
    } else if is_digit(c) || c == '-' {
        lemma_number_end(s, i);
        reveal_with_fuel(number_end, 2);
    } else if c == 't' || c == 'f' {
        reveal_strlit("true");
        reveal_strlit("false");
    } else if c == 'n' {
        reveal_strlit("null");
    }
}

/// Tokenizing stays inside the text, and succeeds only by reaching its end.
pub proof fn lemma_scan_tokens_bounds(s: Seq<char>, i: int)
    requires
        0 <= i <= s.len(),
    ensures
        i <= scan_tokens(s, i).end <= s.len(),
        scan_tokens(s, i).result is Ok ==> scan_tokens(s, i).end == s.len(),
    decreases s.len() - i,
{
    if i < s.len() {
        lemma_scan_token_bounds(s, i);
        if scan_token(s, i).result is Ok {
            lemma_scan_tokens_bounds(s, scan_token(s, i).end);
        }
    }
}

/// A string is never cut short: where reading one succeeds, the last
/// character read is its closing quote.
pub proof fn lemma_string_is_closed(s: Seq<char>, i: int)
    requires
        0 <= i <= s.len(),
        scan_string(s, i).result is Ok,
    ensures
        i < scan_string(s, i).end <= s.len(),
        s[scan_string(s, i).end - 1] == '"',
    decreases s.len() - i,
{
    if i < s.len() && s[i] != '"' {
        if s[i] == '\\' {
            lemma_string_is_closed(s, i + 2);
        } else {
            lemma_string_is_closed(s, i + 1);
        }
    }
}

/// A string that is never closed is an error: where no quote follows,
/// reading a string fails.
pub proof fn lemma_unclosed_string_fails(s: Seq<char>, i: int)
    requires
        0 <= i <= s.len(),
        forall|k: int| i <= k < s.len() ==> s[k] != '"',
    ensures
        scan_string(s, i).result is Err,
    decreases s.len() - i,
{
    if i < s.len() {
        if s[i] == '\\' {
            if i + 1 < s.len() && unescape(s[i + 1]) is Some {
                lemma_unclosed_string_fails(s, i + 2);
            }
        } else {
            lemma_unclosed_string_fails(s, i + 1);
        }
    }
}

/// Tokenizing depends on the text alone: whatever two runs over one text
/// return, they return the same.
pub proof fn theorem_tokenize_twice(
    text: Seq<char>,
    first: Result<Vec<Token>, LexerError>,
    second: Result<Vec<Token>, LexerError>,
)
    requires
        result_view(first) == tokenize(text),
        result_view(second) == tokenize(text),
    ensures
        result_view(first) == result_view(second),
{
}

/// Every number that the tokenizer yields is a numeral.
pub proof fn lemma_scanned_numerals(s: Seq<char>, i: int)
    requires
        0 <= i <= s.len(),
    ensures
        scan_tokens(s, i).result matches Ok(tokens) ==> holds_numerals(tokens),
    decreases s.len() - i,
{
    if i < s.len() {
        lemma_scan_token_bounds(s, i);
        let step = scan_token(s, i);
        if step.result is Ok {
            lemma_scanned_numerals(s, step.end);
            if let Ok(rest) = scan_tokens(s, step.end).result {
                if let Ok(Some(token)) = step.result {
                    let tokens = seq![token] + rest;
                    assert(holds_numerals(tokens)) by {
                        assert forall|k: int| 0 < k < tokens.len() implies tokens[k] == rest[k
                            - 1] by {}
                    }
                }
            }
        }
    }
}

/// A cursor over the characters of a text.
pub struct Lexer {
    chars: Vec<char>,
    pos: usize,
}

impl Lexer {
    #[verifier::type_invariant]
    spec fn in_bounds(self) -> bool {
        self.pos <= self.chars.len()
    }

    /// The whole text, read or not.
    pub closed spec fn text(&self) -> Seq<char> {
        self.chars@
    }

    /// How many characters have been read.
    pub closed spec fn position(&self) -> int {
        self.pos as int
    }

    /// A cursor at the start of `data`.
    pub fn new(data: &str) -> (lexer: Lexer)
        ensures
            lexer.text() == data@,
            lexer.position() == 0,
    {
        Lexer { chars: chars_of(data), pos: 0 }
    }

    /// Reads one character, if any is left.
    pub fn advance(&mut self) -> (c: Option<char>)
        ensures
            final(self).text() == old(self).text(),
            0 <= old(self).position() <= old(self).text().len(),
            c == (if old(self).position() < old(self).text().len() {
                Some(old(self).text()[old(self).position()])
            } else {
                None
            }),
            final(self).position() == old(self).position() + (if c is Some {
                1int
            } else {
                0int
            }),
    {
        proof {
            use_type_invariant(&*self);
        }
        if self.pos < self.chars.len() {
            let c = self.chars[self.pos];
            self.pos += 1;
            Some(c)
        } else {
            None
        }
    }

    /// Reads the rest of a string literal, from just after its opening quote.
    pub fn lex_string(&mut self) -> (result: Result<String, LexerError>)
        ensures
            final(self).text() == old(self).text(),
            result_view(result) == scan_string(old(self).text(), old(self).position()).result,
            final(self).position() == scan_string(old(self).text(), old(self).position()).end,
    {
        proof {
            use_type_invariant(&*self);
        }
        let ghost s = self.chars@;
        let ghost start = self.pos as int;
        let mut value = String::new();
        proof {
            lemma_after_after(scan_string(s, start), Seq::empty(), Seq::empty());
        }
        loop
            invariant
                s == old(self).chars@,
                start == old(self).pos,
                self.chars@ == s,
                self.pos <= self.chars.len(),
                scan_string(s, start) == scan_string(s, self.pos as int).after(value@),
            decreases self.chars.len() - self.pos,
        {
            if self.pos >= self.chars.len() {
                return Err(LexerError::UnexpectedEndOfLine);
            }
            let c = self.chars[self.pos];
            if c == '"' {
                self.pos += 1;
                assert(value@ + Seq::<char>::empty() =~= value@);
                return Ok(value);
            }
            let ghost before = self.pos as int;
            let ghost read = value@;
            if c == '\\' {
                self.pos += 1;
                if self.pos >= self.chars.len() {
                    return Err(LexerError::UnexpectedEndOfLine);
                }
                let escaped = self.chars[self.pos];
                self.pos += 1;
                match unescaped(escaped) {
                    Some(plain) => {
                        value.push(plain);
                        proof {
                            assert(read.push(plain) =~= read + seq![plain]);
                            lemma_after_after(scan_string(s, before + 2), read, seq![plain]);
                        }
                    },
                    None => {
                        return Err(LexerError::InvalidEscapeSquence(escaped));
                    },
                }
            } else {
                value.push(c);
                self.pos += 1;
                proof {
                    assert(read.push(c) =~= read + seq![c]);
                    lemma_after_after(scan_string(s, before + 1), read, seq![c]);
                }
            }
        }
    }

    /// Reads the longest run of number characters.
    pub fn lex_number(&mut self) -> (result: Result<String, LexerError>)
        ensures
            final(self).text() == old(self).text(),
            final(self).position() == number_end(old(self).text(), old(self).position()),
            result_view(result) == Ok::<Seq<char>, SpecLexerError>(
                old(self).text().subrange(old(self).position(), final(self).position()),
            ),
    {
        proof {
            use_type_invariant(&*self);
        }
        let start = self.pos;
        while self.pos < self.chars.len() && is_number_character(self.chars[self.pos])
            invariant
                self.chars@ == old(self).chars@,
                start <= self.pos <= self.chars.len(),
                number_end(self.chars@, start as int) == number_end(self.chars@, self.pos as int),
            decreases self.chars.len() - self.pos,
        {
            self.pos += 1;
        }
        Ok(string_of(&self.chars, start, self.pos))
    }

    /// Reads up to `n` characters.
    fn take_run(&mut self, n: usize) -> (run: (usize, usize))
        ensures
            final(self).text() == old(self).text(),
            run.0 == old(self).position(),
            run.1 == final(self).position(),
            0 <= run.0 <= run.1 <= old(self).text().len(),
            old(self).text().subrange(run.0 as int, run.1 as int) == run_at(
                old(self).text(),
                old(self).position(),
                n as int,
            ),
    {
        proof {
            use_type_invariant(&*self);
        }
        let start = self.pos;
        if self.chars.len() - self.pos >= n {
            self.pos += n;
        } else {
            self.pos = self.chars.len();
        }
        (start, self.pos)
    }

    /// Reads a boolean literal.
    pub fn lex_boolean(&mut self) -> (result: Result<bool, LexerError>)
        ensures
            final(self).text() == old(self).text(),
            result_view(result) == scan_boolean(old(self).text(), old(self).position()).result,
            final(self).position() == scan_boolean(old(self).text(), old(self).position()).end,
    {
        proof {
            use_type_invariant(&*self);
        }
        if self.pos >= self.chars.len() {
            return Err(LexerError::InvalidValue(String::new()));
        }
        let c = self.chars[self.pos];
        if c == 't' {
            let (from, to) = self.take_run(4);
            if spells(&self.chars, from, to, "true") {
                Ok(true)
            } else {
                Err(LexerError::InvalidValue(string_of(&self.chars, from, to)))
            }
        } else if c == 'f' {
            let (from, to) = self.take_run(5);
            if spells(&self.chars, from, to, "false") {
                Ok(false)
            } else {
                Err(LexerError::InvalidValue(string_of(&self.chars, from, to)))
            }
        } else {
            Err(LexerError::UnexpectedCharacter(c))
        }
    }

    /// Reads a null literal.
    pub fn lex_null(&mut self) -> (result: Result<Token, LexerError>)
        ensures
            final(self).text() == old(self).text(),
            result_view(result) == scan_null(old(self).text(), old(self).position()).result,
            final(self).position() == scan_null(old(self).text(), old(self).position()).end,
    {
        proof {
            use_type_invariant(&*self);
        }
        let (from, to) = self.take_run(4);
        if spells(&self.chars, from, to, "null") {
            Ok(Token::ValueNil)
        } else {
            Err(LexerError::InvalidValue(string_of(&self.chars, from, to)))
        }
    }

    /// Reads every token from the cursor to the end of the text. It stops at
    /// the first error, with the cursor where the reading stopped.
    pub fn lex(&mut self) -> (result: Result<Vec<Token>, LexerError>)
        ensures
            final(self).text() == old(self).text(),
            result_view(result) == scan_tokens(old(self).text(), old(self).position()).result,
            final(self).position() == scan_tokens(old(self).text(), old(self).position()).end,
    {
        proof {
            use_type_invariant(&*self);
        }
        let ghost s = self.chars@;
        let ghost start = self.pos as int;
        let mut tokens: Vec<Token> = Vec::new();
        proof {
            lemma_after_after(scan_tokens(s, start), Seq::empty(), Seq::empty());
            assert(tokens.deep_view() =~= Seq::empty());
        }
        while self.pos < self.chars.len()
            invariant
                s == old(self).chars@,
                start == old(self).pos,
                self.chars@ == s,
                self.pos <= self.chars.len(),
                scan_tokens(s, start) == scan_tokens(s, self.pos as int).after(tokens.deep_view()),
            decreases self.chars.len() - self.pos,
        {
            let ghost before = self.pos as int;
            let ghost done = tokens.deep_view();
            proof {
                lemma_scan_token_bounds(s, before);
                lemma_after_after(scan_tokens(s, scan_token(s, before).end), done, Seq::empty());
                if let Ok(Some(token)) = scan_token(s, before).result {
                    assert(done.push(token) =~= done + seq![token]);
                    lemma_after_after(
                        scan_tokens(s, scan_token(s, before).end),
                        done,
                        seq![token],
                    );
                }
            }
            let c = self.chars[self.pos];
            if c == '{' {
                push_token(&mut tokens, Token::BeginObject);
                self.pos += 1;
            } else if c == '}' {
                push_token(&mut tokens, Token::EndObject);
                self.pos += 1;
            } else if c == '[' {
                push_token(&mut tokens, Token::BeginArray);
                self.pos += 1;
            } else if c == ']' {
                push_token(&mut tokens, Token::EndArray);
                self.pos += 1;
            } else if c == ':' {
                push_token(&mut tokens, Token::NameSeperator);
                self.pos += 1;
            } else if c == ',' {
                push_token(&mut tokens, Token::ValueSeperator);
                self.pos += 1;
            } else if c == '"' {
                self.pos += 1;
                match self.lex_string() {
                    Ok(value) => push_token(&mut tokens, Token::ValueString(value)),
                    Err(e) => {
                        return Err(e);
                    },
                }
            } else if ('0' <= c && c <= '9') || c == '-' {
                let from = self.pos;
                match self.lex_number() {
                    Ok(run) => {
                        proof {
                            use_type_invariant(&*self);
                            lemma_number_end(s, before);
                        }
                        if is_numeral_range(&self.chars, from, self.pos) {
                            push_token(&mut tokens, Token::ValueNumber(Numeral::new(run)));
                        } else {
                            return Err(LexerError::InvalidValue(run));
                        }
                    },
                    Err(e) => {
                        return Err(e);
                    },
                }
            } else if c == 't' || c == 'f' {
                match self.lex_boolean() {
                    Ok(value) => push_token(&mut tokens, Token::ValueBoolean(value)),
                    Err(e) => {
                        return Err(e);
                    },
                }
            } else if c == 'n' {
                match self.lex_null() {
                    Ok(token) => push_token(&mut tokens, token),
                    Err(e) => {
                        return Err(e);
                    },
                }
            } else if c == ' ' || c == '\n' {
                self.pos += 1;
            } else {
                return Err(LexerError::UnexpectedCharacter(c));
            }
            proof {
                use_type_invariant(&*self);
            }
        }
        Ok(tokens)
    }
}

impl Clone for Lexer {
    fn clone(&self) -> (lexer: Lexer)
        ensures
            lexer.text() == self.text(),
            lexer.position() == self.position(),
    {
        proof {
            use_type_invariant(self);
        }
        let chars = self.chars.clone();
        assert(chars@ =~= self.chars@);
        Lexer { chars, pos: self.pos }
    }
}

fn unescaped(c: char) -> (plain: Option<char>)
    ensures
        plain == unescape(c),
{
    if c == 'n' {
        Some('\n')
    } else if c == 'r' {
        Some('\r')
    } else if c == 't' {
        Some('\t')
    } else if c == '\\' {
        Some('\\')
    } else if c == '"' {
        Some('"')
    } else {
        None
    }
}

fn push_token(tokens: &mut Vec<Token>, token: Token)
    ensures
        final(tokens).deep_view() == old(tokens).deep_view().push(token@),
{
    tokens.push(token);
    assert(tokens.deep_view() =~= old(tokens).deep_view().push(token@));
}

fn is_number_character(c: char) -> (b: bool)
    ensures
        b == is_number_char(c),
{
    ('0' <= c && c <= '9') || c == '-' || c == '.' || c == 'e' || c == 'E'
}

/// Whether `chars[from..to]` spells `word`.
fn spells(chars: &Vec<char>, from: usize, to: usize, word: &str) -> (same: bool)
    requires
        from <= to <= chars.len(),
    ensures
        same == (chars@.subrange(from as int, to as int) == word@),
{
    let ghost run = chars@.subrange(from as int, to as int);
    let mut i: usize = from;
    for c in it: word.chars()
        invariant
            from <= to <= chars.len(),
            run == chars@.subrange(from as int, to as int),
            i == from + it.index(),
            i <= to,
            it.seq() == word@,
            forall|k: int| 0 <= k < it.index() ==> run[k] == word@[k],
    {
        if i == to || chars[i] != c {
            assert(run != word@) by {
                if run == word@ {
                    assert(run[it.index() as int] == word@[it.index() as int]);
                }
            }
            return false;
        }
        i += 1;
    }
    assert(i == to ==> run =~= word@);
    i == to
}

} // verus!
