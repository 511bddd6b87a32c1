//! Writing a value down and reading it back.
//!
//! A value has a plain writing as tokens: brackets around its members or
//! items, a separator between each two of them. The theorems here say that
//! the parser reads every such writing back as the value it was written from,
//! with every key, scalar and level of nesting in place and in order; and
//! that the same holds of the text that spells the writing, however its
//! tokens are spaced.

use vstd::prelude::*;
use crate::parser::{
    lemma_parse_value_bounds, parse_document, parse_elements, parse_members, parse_value,
    skip_separator, token_at, Parse,
};
use crate::error::{SpecJsonError, SpecParserError};
use crate::number::is_numeral;
use crate::parser::parse_text;
use crate::reading::{lemma_stands_split, stands_at};
use crate::lexer::{lemma_scanned_numerals, tokenize};
use crate::spelling::{is_spacing, spell_tokens, theorem_tokenize_spelled};
use crate::token::{holds_numerals, SpecToken};
use crate::value::SpecJson;

verus! {

/// The tokens that write `v`.
pub open spec fn write_value(v: SpecJson) -> Seq<SpecToken>
    decreases v, 0int,
{
    match v {
        SpecJson::Object(pairs) => seq![SpecToken::BeginObject] + write_members(pairs, 0)
            + seq![SpecToken::EndObject],
        SpecJson::Array(items) => seq![SpecToken::BeginArray] + write_elements(items, 0)
            + seq![SpecToken::EndArray],
        SpecJson::String(text) => seq![SpecToken::ValueString(text)],
        SpecJson::Number(number) => seq![SpecToken::ValueNumber(number)],
        SpecJson::Boolean(b) => seq![SpecToken::ValueBoolean(b)],
        SpecJson::Null => seq![SpecToken::ValueNil],
    }
}

/// The tokens that write one member of an object: key, name separator, value.
pub open spec fn write_member(pair: (Seq<char>, SpecJson)) -> Seq<SpecToken>
    decreases pair, 0int,
{
    seq![SpecToken::ValueString(pair.0), SpecToken::NameSeperator] + write_value(pair.1)
}

/// A value separator where another member or item follows the one at `k`.
pub open spec fn write_separator(len: nat, k: int) -> Seq<SpecToken> {
    if k + 1 < len {
        seq![SpecToken::ValueSeperator]
    } else {
        Seq::empty()
    }
}

/// The tokens that write the members of an object from the one at `from` on.
pub open spec fn write_members(pairs: Seq<(Seq<char>, SpecJson)>, from: int) -> Seq<SpecToken>
    decreases pairs, pairs.len() - from,
{
    if 0 <= from < pairs.len() {
        write_member(pairs[from]) + write_separator(pairs.len(), from) + write_members(
            pairs,
            from + 1,
        )
    } else {
        Seq::empty()
    }
}

/// The tokens that write the items of an array from the one at `from` on.
pub open spec fn write_elements(items: Seq<SpecJson>, from: int) -> Seq<SpecToken>
    decreases items, items.len() - from,
{
    if 0 <= from < items.len() {
        write_value(items[from]) + write_separator(items.len(), from) + write_elements(
            items,
            from + 1,
        )
    } else {
        Seq::empty()
    }
}

proof fn lemma_stands_first(t: Seq<SpecToken>, i: int, w: Seq<SpecToken>)
    requires
        stands_at(t, i, w),
        w.len() > 0,
    ensures
        token_at(t, i) == Some(w[0]),
{
    assert(t.subrange(i, i + w.len())[0] == w[0]);
}

/// Wherever the writing of `v` stands among tokens, the parser reads `v`
/// there and stops just after the writing, whatever stands around it.
pub proof fn lemma_parse_written_value(t: Seq<SpecToken>, i: int, v: SpecJson)
    requires
        stands_at(t, i, write_value(v)),
    ensures
        parse_value(t, i) == (Parse { result: Ok(v), end: i + write_value(v).len() }),
    decreases v, 0int,
{
    let w = write_value(v);
    match v {
        SpecJson::Object(pairs) => {
            let open = seq![SpecToken::BeginObject];
            let rest = write_members(pairs, 0) + seq![SpecToken::EndObject];
            assert(w =~= open + rest);
            lemma_stands_split(t, i, open, rest);
            lemma_stands_first(t, i, open);
            lemma_parse_written_members(t, i + 1, pairs, 0);
            assert(pairs.skip(0) =~= pairs);
        },
        SpecJson::Array(items) => {
            let open = seq![SpecToken::BeginArray];
            let rest = write_elements(items, 0) + seq![SpecToken::EndArray];
            assert(w =~= open + rest);
            lemma_stands_split(t, i, open, rest);
            lemma_stands_first(t, i, open);
            lemma_parse_written_elements(t, i + 1, items, 0);
            assert(items.skip(0) =~= items);
        },
        _ => {
            lemma_stands_first(t, i, w);
        },
    }
}

/// Wherever the writing of the members of an object from `from` on stands,
/// closed by a brace, the parser reads these members there.
pub proof fn lemma_parse_written_members(
    t: Seq<SpecToken>,
    i: int,
    pairs: Seq<(Seq<char>, SpecJson)>,
    from: int,
)
    requires
        0 <= from <= pairs.len(),
        stands_at(t, i, write_members(pairs, from) + seq![SpecToken::EndObject]),
    ensures
        parse_members(t, i) == (Parse {
            result: Ok(pairs.skip(from)),
            end: i + write_members(pairs, from).len() + 1,
        }),
    decreases pairs, pairs.len() - from,
{
    let close = seq![SpecToken::EndObject];
    if from == pairs.len() {
        assert(write_members(pairs, from) + close =~= close);
        lemma_stands_first(t, i, close);
        assert(pairs.skip(from) =~= Seq::empty());
    } else {
        let pair = pairs[from];
        let head = seq![SpecToken::ValueString(pair.0), SpecToken::NameSeperator];
        let value = write_value(pair.1);
        let sep = write_separator(pairs.len(), from);
        let tail = write_members(pairs, from + 1) + close;
        assert(write_member(pair) == head + value);
        assert(write_members(pairs, from) + close =~= head + (value + (sep + tail)));
        lemma_stands_split(t, i, head, value + (sep + tail));
        lemma_stands_split(t, i + 2, value, sep + tail);
        lemma_stands_split(t, i + 2 + value.len(), sep, tail);
        assert(t.subrange(i, i + 2)[0] == head[0]);
        assert(t.subrange(i, i + 2)[1] == head[1]);
        lemma_parse_written_value(t, i + 2, pair.1);
        let end = i + 2 + value.len();
        lemma_next_written(t, end, sep, tail);
        lemma_parse_written_members(t, end + sep.len(), pairs, from + 1);
        assert(seq![(pair.0, pair.1)] + pairs.skip(from + 1) =~= pairs.skip(from));
    }
}

/// Wherever the writing of the items of an array from `from` on stands,
/// closed by a bracket, the parser reads these items there.
pub proof fn lemma_parse_written_elements(
    t: Seq<SpecToken>,
    i: int,
    items: Seq<SpecJson>,
    from: int,
)
    requires
        0 <= from <= items.len(),
        stands_at(t, i, write_elements(items, from) + seq![SpecToken::EndArray]),
    ensures
        parse_elements(t, i) == (Parse {
            result: Ok(items.skip(from)),
            end: i + write_elements(items, from).len() + 1,
        }),
    decreases items, items.len() - from,
{
    let close = seq![SpecToken::EndArray];
    if from == items.len() {
        assert(write_elements(items, from) + close =~= close);
        lemma_stands_first(t, i, close);
        assert(items.skip(from) =~= Seq::empty());
    } else {
        let value = write_value(items[from]);
        let sep = write_separator(items.len(), from);
        let tail = write_elements(items, from + 1) + close;
        assert(write_elements(items, from) + close =~= value + (sep + tail));
        lemma_stands_split(t, i, value, sep + tail);
        lemma_stands_split(t, i + value.len(), sep, tail);
        lemma_written_begins(items[from]);
        lemma_stands_first(t, i, value);
        lemma_parse_written_value(t, i, items[from]);
        let end = i + value.len();
        lemma_next_written(t, end, sep, tail);
        lemma_parse_written_elements(t, end + sep.len(), items, from + 1);
        assert(seq![items[from]] + items.skip(from + 1) =~= items.skip(from));
    }
}

/// A writing is not empty, and begins with no closing bracket and no separator.
pub proof fn lemma_written_begins(v: SpecJson)
    ensures
        write_value(v).len() > 0,
        write_value(v)[0] != SpecToken::EndArray,
        write_value(v)[0] != SpecToken::EndObject,
        write_value(v)[0] != SpecToken::ValueSeperator,
{
}

/// After a member or an item, the parser passes over the separator that was
/// written, and over nothing where none was.
proof fn lemma_next_written(
    t: Seq<SpecToken>,
    end: int,
    sep: Seq<SpecToken>,
    tail: Seq<SpecToken>,
)
    requires
        stands_at(t, end, sep),
        stands_at(t, end + sep.len(), tail),
        sep == seq![SpecToken::ValueSeperator] || (sep == Seq::<SpecToken>::empty() && tail.len()
            > 0 && tail[0] != SpecToken::ValueSeperator),
    ensures
        skip_separator(t, end) == end + sep.len(),
{
    if sep.len() > 0 {
        lemma_stands_first(t, end, sep);
    } else {
        lemma_stands_first(t, end, tail);
    }
}

/// A document that was written down is read back as it was: the parser
/// gives an object or an array back from its writing, equal in every key,
/// scalar and level, in the order written.
pub proof fn theorem_parse_written_document(v: SpecJson)
    requires
        v is Object || v is Array,
    ensures
        parse_document(write_value(v), 0).result == Ok::<SpecJson, SpecParserError>(v),
        parse_document(write_value(v), 0).end == write_value(v).len(),
{
    let w = write_value(v);
    assert(w.subrange(0, w.len() as int) =~= w);
    lemma_parse_written_value(w, 0, v);
    assert(token_at(w, 0) == Some(w[0]));
}

/// Every number in `v`, at any depth, is a numeral.
pub open spec fn is_writable(v: SpecJson) -> bool
    decreases v, 0int,
{
    match v {
        SpecJson::Object(pairs) => forall|k: int|
            0 <= k < pairs.len() ==> is_writable_member(#[trigger] pairs[k]),
        SpecJson::Array(items) => forall|k: int|
            0 <= k < items.len() ==> is_writable(#[trigger] items[k]),
        SpecJson::Number(number) => is_numeral(number),
        _ => true,
    }
}

/// Every number in the value of `pair` is a numeral.
pub open spec fn is_writable_member(pair: (Seq<char>, SpecJson)) -> bool
    decreases pair, 0int,
{
    is_writable(pair.1)
}

/// No two numbers stand side by side among the tokens.
pub open spec fn keeps_numbers_apart(tokens: Seq<SpecToken>) -> bool {
    forall|k: int|
        #![trigger tokens[k]]
        0 <= k < tokens.len() - 1 ==> !(tokens[k] is ValueNumber && tokens[k + 1] is ValueNumber)
}

/// The numbers among the tokens are numerals, and no two stand side by side.
pub open spec fn is_spellable(tokens: Seq<SpecToken>) -> bool {
    holds_numerals(tokens) && keeps_numbers_apart(tokens)
}

proof fn lemma_spellable_concat(a: Seq<SpecToken>, b: Seq<SpecToken>)
    requires
        is_spellable(a),
        is_spellable(b),
        a.len() == 0 || b.len() == 0 || !(a.last() is ValueNumber) || !(b[0] is ValueNumber),
    ensures
        is_spellable(a + b),
{
    let w = a + b;
    assert forall|k: int| 0 <= k < w.len() implies (#[trigger] w[k] matches SpecToken::ValueNumber(
        n,
    ) ==> is_numeral(n)) by {
        if k < a.len() {
            assert(w[k] == a[k]);
        } else {
            assert(w[k] == b[k - a.len()]);
        }
    }
    assert forall|k: int| #![trigger w[k]] 0 <= k < w.len() - 1 implies !(w[k] is ValueNumber
        && w[k + 1] is ValueNumber) by {
        if k + 1 < a.len() {
            assert(w[k] == a[k] && w[k + 1] == a[k + 1]);
        } else if k >= a.len() {
            assert(w[k] == b[k - a.len()] && w[k + 1] == b[k - a.len() + 1]);
        } else {
            assert(w[k] == a.last() && w[k + 1] == b[0]);
        }
    }
}

/// The writing of a value whose numbers are numerals can be spelled out: no
/// two numbers stand side by side in it.
pub proof fn lemma_written_value_spellable(v: SpecJson)
    requires
        is_writable(v),
    ensures
        is_spellable(write_value(v)),
    decreases v, 0int,
{
    match v {
        SpecJson::Object(pairs) => {
            lemma_written_members_spellable(pairs, 0);
            let open = seq![SpecToken::BeginObject];
            lemma_spellable_concat(open, write_members(pairs, 0));
            lemma_spellable_concat(open + write_members(pairs, 0), seq![SpecToken::EndObject]);
        },
        SpecJson::Array(items) => {
            lemma_written_elements_spellable(items, 0);
            let open = seq![SpecToken::BeginArray];
            lemma_spellable_concat(open, write_elements(items, 0));
            lemma_spellable_concat(open + write_elements(items, 0), seq![SpecToken::EndArray]);
        },
        _ => {},
    }
}

proof fn lemma_written_members_spellable(pairs: Seq<(Seq<char>, SpecJson)>, from: int)
    requires
        0 <= from <= pairs.len(),
        forall|k: int| 0 <= k < pairs.len() ==> is_writable_member(#[trigger] pairs[k]),
    ensures
        is_spellable(write_members(pairs, from)),
        write_members(pairs, from).len() > 0 ==> write_members(pairs, from)[0] is ValueString,
        from == pairs.len() ==> write_members(pairs, from).len() == 0,
    decreases pairs, pairs.len() - from,
{
    if from < pairs.len() {
        let pair = pairs[from];
        let head = seq![SpecToken::ValueString(pair.0), SpecToken::NameSeperator];
        let value = write_value(pair.1);
        let sep = write_separator(pairs.len(), from);
        let tail = write_members(pairs, from + 1);
        assert(is_writable_member(pair));
        lemma_written_value_spellable(pair.1);
        lemma_written_members_spellable(pairs, from + 1);
        assert(write_member(pair) == head + value);
        lemma_spellable_concat(head, value);
        lemma_spellable_concat(head + value, sep);
        lemma_spellable_concat(head + value + sep, tail);
        assert((head + value + sep + tail)[0] == head[0]);
    }
}

proof fn lemma_written_elements_spellable(items: Seq<SpecJson>, from: int)
    requires
        0 <= from <= items.len(),
        forall|k: int| 0 <= k < items.len() ==> is_writable(#[trigger] items[k]),
    ensures
        is_spellable(write_elements(items, from)),
        from == items.len() ==> write_elements(items, from).len() == 0,
    decreases items, items.len() - from,
{
    if from < items.len() {
        let value = write_value(items[from]);
        let sep = write_separator(items.len(), from);
        let tail = write_elements(items, from + 1);
        assert(is_writable(items[from]));
        lemma_written_value_spellable(items[from]);
        lemma_written_elements_spellable(items, from + 1);
        lemma_written_begins(items[from]);
        lemma_spellable_concat(value, sep);
        lemma_spellable_concat(value + sep, tail);
    }
}

/// A document that was written down and spelled out is read back from its
/// text as it was: for every object or array whose numbers are numerals, and
/// every spacing of its tokens, tokenizing and parsing the text gives the
/// value back, equal in every key, scalar and level, in the order written.
pub proof fn theorem_parse_text_written(v: SpecJson, gaps: Seq<Seq<char>>)
    requires
        v is Object || v is Array,
        is_writable(v),
        is_spacing(gaps, write_value(v).len()),
    ensures
        parse_text(spell_tokens(write_value(v), gaps, 0)) == Ok::<SpecJson, SpecJsonError>(v),
{
    lemma_written_value_spellable(v);
    theorem_tokenize_spelled(write_value(v), gaps);
    theorem_parse_written_document(v);
}

/// What the parser builds from tokens whose numbers are numerals holds only
/// numerals.
pub proof fn lemma_parsed_value_writable(t: Seq<SpecToken>, i: int)
    requires
        holds_numerals(t),
        0 <= i <= t.len(),
    ensures
        parse_value(t, i).result matches Ok(v) ==> is_writable(v),
    decreases t.len() - i, 1int,
{
    match token_at(t, i) {
        Some(SpecToken::BeginObject) => {
            lemma_parsed_members_writable(t, i + 1);
        },
        Some(SpecToken::BeginArray) => {
            lemma_parsed_elements_writable(t, i + 1);
        },
        _ => {},
    }
}

proof fn lemma_parsed_members_writable(t: Seq<SpecToken>, i: int)
    requires
        holds_numerals(t),
        0 <= i <= t.len(),
    ensures
        parse_members(t, i).result matches Ok(pairs) ==> forall|k: int|
            0 <= k < pairs.len() ==> is_writable_member(#[trigger] pairs[k]),
    decreases t.len() - i, 2int,
{
    if let Some(SpecToken::ValueString(key)) = token_at(t, i) {
        if token_at(t, i + 1) == Some(SpecToken::NameSeperator) {
            lemma_parsed_value_writable(t, i + 2);
            lemma_parse_value_bounds(t, i + 2);
            let value = parse_value(t, i + 2);
            if let Ok(v) = value.result {
                let next = skip_separator(t, value.end);
                lemma_parsed_members_writable(t, next);
                if let Ok(rest) = parse_members(t, next).result {
                    let pairs = seq![(key, v)] + rest;
                    assert forall|k: int| 0 <= k < pairs.len() implies is_writable_member(
                        #[trigger] pairs[k],
                    ) by {
                        if k > 0 {
                            assert(pairs[k] == rest[k - 1]);
                        }
                    }
                }
            }
        }
    }
}

proof fn lemma_parsed_elements_writable(t: Seq<SpecToken>, i: int)
    requires
        holds_numerals(t),
        0 <= i <= t.len(),
    ensures
        parse_elements(t, i).result matches Ok(items) ==> forall|k: int|
            0 <= k < items.len() ==> is_writable(#[trigger] items[k]),
    decreases t.len() - i, 2int,
{
    if token_at(t, i) != Some(SpecToken::EndArray) {
        lemma_parsed_value_writable(t, i);
        lemma_parse_value_bounds(t, i);
        let value = parse_value(t, i);
        if let Ok(v) = value.result {
            let next = skip_separator(t, value.end);
            lemma_parsed_elements_writable(t, next);
            if let Ok(rest) = parse_elements(t, next).result {
                let items = seq![v] + rest;
                assert forall|k: int| 0 <= k < items.len() implies is_writable(
                    #[trigger] items[k],
                ) by {
                    if k > 0 {
                        assert(items[k] == rest[k - 1]);
                    }
                }
            }
        }
    }
}

/// A document that was read from a text can be written down again, and is
/// read back from that writing as it was: whatever text `v` was parsed from,
/// `v` is an object or an array, its numbers are numerals, and tokenizing
/// and parsing its spelled writing, in any spacing, gives `v` again.
pub proof fn theorem_parsed_document_reads_back(text: Seq<char>, v: SpecJson, gaps: Seq<Seq<char>>)
    requires
        parse_text(text) == Ok::<SpecJson, SpecJsonError>(v),
        is_spacing(gaps, write_value(v).len()),
    ensures
        v is Object || v is Array,
        is_writable(v),
        parse_text(spell_tokens(write_value(v), gaps, 0)) == Ok::<SpecJson, SpecJsonError>(v),
{
    let tokens = tokenize(text)->Ok_0;
    lemma_scanned_numerals(text, 0);
    lemma_parsed_value_writable(tokens, 0);
    theorem_parse_text_written(v, gaps);
}

} // verus!
