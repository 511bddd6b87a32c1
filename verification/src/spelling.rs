//! Spelling tokens out as text and tokenizing them back.
//!
//! Every token has a spelling. Tokens may be set apart by spaces and
//! newlines. The theorems here say that the tokenizer reads every such text
//! back as the tokens it spells, as long as two numbers are set apart.

use vstd::prelude::*;
use crate::error::SpecLexerError;
use crate::lexer::{
    is_number_char, number_end, scan_string, scan_token, scan_tokens, tokenize, Scan,
};
use crate::number::{is_digit, is_digits, is_exponent, is_exponent_mark, is_mantissa, is_numeral,
    is_unsigned_numeral};
use crate::reading::{lemma_stands_item, lemma_stands_split, stands_at};
use crate::token::{holds_numerals, SpecToken};

verus! {

/// How a character is written inside a string literal: the five that have an
/// escape by their escape, any other as it is.
pub open spec fn spell_char(c: char) -> Seq<char> {
    if c == '\n' {
        seq!['\\', 'n']
    } else if c == '\r' {
        seq!['\\', 'r']
    } else if c == '\t' {
        seq!['\\', 't']
    } else if c == '\\' {
        seq!['\\', '\\']
    } else if c == '"' {
        seq!['\\', '"']
    } else {
        seq![c]
    }
}

/// The characters of `s` from `from` on, as written inside a string literal.
pub open spec fn spell_chars(s: Seq<char>, from: int) -> Seq<char>
    decreases s.len() - from,
{
    if 0 <= from < s.len() {
        spell_char(s[from]) + spell_chars(s, from + 1)
    } else {
        Seq::empty()
    }
}

/// The text of one token.
pub open spec fn spell_token(token: SpecToken) -> Seq<char> {
    match token {
        SpecToken::BeginArray => seq!['['],
        SpecToken::BeginObject => seq!['{'],
        SpecToken::EndArray => seq![']'],
        SpecToken::EndObject => seq!['}'],
        SpecToken::NameSeperator => seq![':'],
        SpecToken::ValueSeperator => seq![','],
        SpecToken::ValueNumber(number) => number,
        SpecToken::ValueBoolean(b) => if b {
            "true"@
        } else {
            "false"@
        },
        SpecToken::ValueString(text) => seq!['"'] + spell_chars(text, 0) + seq!['"'],
        SpecToken::ValueNil => "null"@,
    }
}

/// Only spaces and newlines.
pub open spec fn is_blank(gap: Seq<char>) -> bool {
    forall|k: int| 0 <= k < gap.len() ==> #[trigger] gap[k] == ' ' || gap[k] == '\n'
}

/// A spacing for `n` tokens: a blank gap before each token and one after the last.
pub open spec fn is_spacing(gaps: Seq<Seq<char>>, n: nat) -> bool {
    &&& gaps.len() == n + 1
    &&& forall|k: int| 0 <= k <= n ==> is_blank(#[trigger] gaps[k])
}

/// The text of the tokens from `from` on, each after its gap, and the last gap.
pub open spec fn spell_tokens(tokens: Seq<SpecToken>, gaps: Seq<Seq<char>>, from: int) -> Seq<char>
    decreases tokens.len() - from,
{
    if 0 <= from < tokens.len() {
        gaps[from] + spell_token(tokens[from]) + spell_tokens(tokens, gaps, from + 1)
    } else {
        gaps[tokens.len() as int]
    }
}

/// No number among the tokens is followed by a number without a gap between them.
pub open spec fn sets_numbers_apart(tokens: Seq<SpecToken>, gaps: Seq<Seq<char>>) -> bool {
    forall|k: int|
        #![trigger tokens[k]]
        0 <= k < tokens.len() - 1 && tokens[k] is ValueNumber && tokens[k + 1] is ValueNumber
            ==> gaps[k + 1].len() > 0
}

/// The tokenizer passes over blanks.
pub proof fn lemma_scan_blank(text: Seq<char>, i: int, j: int)
    requires
        0 <= i <= j <= text.len(),
        forall|k: int| i <= k < j ==> #[trigger] text[k] == ' ' || text[k] == '\n',
    ensures
        scan_tokens(text, i) == scan_tokens(text, j),
    decreases j - i,
{
    if i < j {
        assert(text[i] == ' ' || text[i] == '\n');
        lemma_scan_blank(text, i + 1, j);
    }
}

/// A spelled string body, closed by a quote, is read back as the characters
/// it spells.
pub proof fn lemma_scan_spelled_chars(text: Seq<char>, i: int, s: Seq<char>, from: int)
    requires
        0 <= from <= s.len(),
        stands_at(text, i, spell_chars(s, from) + seq!['"']),
    ensures
        scan_string(text, i) == (Scan {
            result: Ok(s.skip(from)),
            end: i + spell_chars(s, from).len() + 1,
        }),
    decreases s.len() - from,
{
    let close = seq!['"'];
    if from == s.len() {
        lemma_stands_item(text, i, close, 0);
        assert(s.skip(from) =~= Seq::empty());
    } else {
        let c = s[from];
        let head = spell_char(c);
        let tail = spell_chars(s, from + 1) + close;
        assert(spell_chars(s, from) + close =~= head + tail);
        lemma_stands_split(text, i, head, tail);
        lemma_stands_item(text, i, head, 0);
        if head.len() == 2 {
            lemma_stands_item(text, i, head, 1);
        }
        lemma_scan_spelled_chars(text, i + head.len(), s, from + 1);
        assert(seq![c] + s.skip(from + 1) =~= s.skip(from));
    }
}

/// A run of number characters that ends at `end` is the run that the
/// tokenizer collects.
pub proof fn lemma_number_run(text: Seq<char>, i: int, end: int)
    requires
        0 <= i <= end <= text.len(),
        forall|k: int| i <= k < end ==> is_number_char(#[trigger] text[k]),
        end < text.len() ==> !is_number_char(text[end]),
    ensures
        number_end(text, i) == end,
    decreases end - i,
{
    if i < end {
        assert(is_number_char(text[i]));
        lemma_number_run(text, i + 1, end);
    }
}

/// A numeral is made of number characters, and begins with a digit or `-`.
pub proof fn lemma_numeral_chars(n: Seq<char>)
    requires
        is_numeral(n),
    ensures
        n.len() > 0,
        is_digit(n[0]) || n[0] == '-',
        forall|k: int| 0 <= k < n.len() ==> is_number_char(#[trigger] n[k]),
{
    let body = if is_digit(n[0]) && is_unsigned_numeral(n) {
        n
    } else {
        n.skip(1)
    };
    let shift = n.len() - body.len();
    assert(is_unsigned_numeral(body));
    assert forall|k: int| 0 <= k < body.len() implies is_number_char(#[trigger] body[k]) by {
        if !is_mantissa(body) {
            let m = choose|m: int|
                0 <= m < body.len() && is_exponent_mark(#[trigger] body[m]) && is_mantissa(
                    body.take(m),
                ) && is_exponent(body.skip(m + 1));
            let exponent = body.skip(m + 1);
            if k < m {
                assert(body.take(m)[k] == body[k]);
            } else if k > m {
                assert(exponent[k - m - 1] == body[k]);
                if k - m - 1 > 0 && !is_digits(exponent) {
                    assert(exponent.skip(1)[k - m - 2] == body[k]);
                }
            }
        }
    }
    assert forall|k: int| 0 <= k < n.len() implies is_number_char(#[trigger] n[k]) by {
        if k >= shift {
            assert(body[k - shift] == n[k]);
        }
    }
}

/// The spelling of a token is not empty, and only that of a number begins
/// with a number character or with a blank.
pub proof fn lemma_spelling_begins(token: SpecToken)
    requires
        token matches SpecToken::ValueNumber(n) ==> is_numeral(n),
    ensures
        spell_token(token).len() > 0,
        !(token is ValueNumber) ==> !is_number_char(spell_token(token)[0]),
        spell_token(token)[0] != ' ' && spell_token(token)[0] != '\n',
{
    reveal_strlit("true");
    reveal_strlit("false");
    reveal_strlit("null");
    if let SpecToken::ValueNumber(n) = token {
        lemma_numeral_chars(n);
    }
}

/// Where the spelling of a token stands in a text, the tokenizer reads the
/// token and stops just after the spelling. After a number, the text must end
/// or go on with a character that no number holds.
pub proof fn lemma_scan_spelled_token(text: Seq<char>, i: int, token: SpecToken)
    requires
        stands_at(text, i, spell_token(token)),
        token matches SpecToken::ValueNumber(n) ==> is_numeral(n) && (i + n.len() < text.len()
            ==> !is_number_char(text[i + n.len()])),
    ensures
        scan_token(text, i) == (Scan {
            result: Ok(Some(token)),
            end: i + spell_token(token).len(),
        }),
{
    let w = spell_token(token);
    lemma_spelling_begins(token);
    lemma_stands_item(text, i, w, 0);
    match token {
        SpecToken::ValueNumber(n) => {
            lemma_numeral_chars(n);
            assert forall|k: int| i <= k < i + n.len() implies is_number_char(
                #[trigger] text[k],
            ) by {
                lemma_stands_item(text, i, w, k - i);
            }
            lemma_number_run(text, i, i + n.len());
        },
        SpecToken::ValueBoolean(b) => {
            reveal_strlit("true");
            reveal_strlit("false");
        },
        SpecToken::ValueString(s) => {
            let open = seq!['"'];
            let rest = spell_chars(s, 0) + seq!['"'];
            assert(w =~= open + rest);
            lemma_stands_split(text, i, open, rest);
            lemma_scan_spelled_chars(text, i + 1, s, 0);
            assert(s.skip(0) =~= s);
        },
        SpecToken::ValueNil => {
            reveal_strlit("null");
        },
        _ => {},
    }
}

/// After the token at `from`, the spelled text ends or goes on with a
/// character that no number holds, if that token is a number.
proof fn lemma_after_number(
    text: Seq<char>,
    end: int,
    tokens: Seq<SpecToken>,
    gaps: Seq<Seq<char>>,
    from: int,
)
    requires
        is_spacing(gaps, tokens.len()),
        holds_numerals(tokens),
        sets_numbers_apart(tokens, gaps),
        0 <= from < tokens.len(),
        tokens[from] is ValueNumber,
        stands_at(text, end, spell_tokens(tokens, gaps, from + 1)),
        end + spell_tokens(tokens, gaps, from + 1).len() == text.len(),
    ensures
        end < text.len() ==> !is_number_char(text[end]),
{
    let rest = spell_tokens(tokens, gaps, from + 1);
    if end < text.len() {
        if gaps[from + 1].len() == 0 {
            lemma_spelling_begins(tokens[from + 1]);
        }
        lemma_stands_item(text, end, rest, 0);
    }
}

/// The characters of a gap that stands in a text are blanks of the text.
proof fn lemma_blank_at(text: Seq<char>, i: int, gap: Seq<char>)
    requires
        is_blank(gap),
        stands_at(text, i, gap),
    ensures
        forall|k: int| i <= k < i + gap.len() ==> #[trigger] text[k] == ' ' || text[k] == '\n',
{
    assert forall|k: int| i <= k < i + gap.len() implies #[trigger] text[k] == ' ' || text[k]
        == '\n' by {
        lemma_stands_item(text, i, gap, k - i);
    }
}

/// Where a text goes on, from `i` to its end, with the spelling of the tokens
/// from `from` on, the tokenizer reads these tokens.
pub proof fn lemma_scan_spelled_tokens(
    text: Seq<char>,
    i: int,
    tokens: Seq<SpecToken>,
    gaps: Seq<Seq<char>>,
    from: int,
)
    requires
        is_spacing(gaps, tokens.len()),
        holds_numerals(tokens),
        sets_numbers_apart(tokens, gaps),
        0 <= from <= tokens.len(),
        stands_at(text, i, spell_tokens(tokens, gaps, from)),
        i + spell_tokens(tokens, gaps, from).len() == text.len(),
    ensures
        scan_tokens(text, i) == (Scan { result: Ok(tokens.skip(from)), end: text.len() as int }),
    decreases tokens.len() - from,
{
    let gap = gaps[from];
    assert(is_blank(gap));
    if from == tokens.len() {
        lemma_blank_at(text, i, gap);
        lemma_scan_blank(text, i, text.len() as int);
        assert(tokens.skip(from) =~= Seq::empty());
    } else {
        let token = tokens[from];
        let word = spell_token(token);
        let rest = spell_tokens(tokens, gaps, from + 1);
        assert(spell_tokens(tokens, gaps, from) =~= gap + (word + rest));
        lemma_stands_split(text, i, gap, word + rest);
        let j = i + gap.len();
        lemma_stands_split(text, j, word, rest);
        lemma_blank_at(text, i, gap);
        lemma_scan_blank(text, i, j);
        let end = j + word.len();
        if token is ValueNumber {
            lemma_after_number(text, end, tokens, gaps, from);
        }
        lemma_spelling_begins(token);
        lemma_scan_spelled_token(text, j, token);
        lemma_scan_spelled_tokens(text, end, tokens, gaps, from + 1);
        assert(seq![token] + tokens.skip(from + 1) =~= tokens.skip(from));
        assert(scan_tokens(text, j) == scan_tokens(text, end).after(seq![token]));
    }
}

/// Tokens that are spelled out, with any spacing, are read back as they
/// were: the tokenizer gives the tokens back from their text, as long as the
/// numbers among them are numerals and no two of them touch.
pub proof fn theorem_tokenize_spelled(tokens: Seq<SpecToken>, gaps: Seq<Seq<char>>)
    requires
        is_spacing(gaps, tokens.len()),
        holds_numerals(tokens),
        sets_numbers_apart(tokens, gaps),
    ensures
        tokenize(spell_tokens(tokens, gaps, 0)) == Ok::<Seq<SpecToken>, SpecLexerError>(tokens),
{
    let text = spell_tokens(tokens, gaps, 0);
    assert(text.subrange(0, text.len() as int) =~= text);
    lemma_scan_spelled_tokens(text, 0, tokens, gaps, 0);
    assert(tokens.skip(0) =~= tokens);
}

} // verus!
