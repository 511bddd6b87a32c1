//! The tree of values that a document parses into, and the ways to walk it.

use vstd::prelude::*;
use crate::error::{ParsedJsonError, SpecParsedJsonError};
use crate::number::Numeral;
use crate::reading::result_view;
use crate::text::same_text;

verus! {

/// A JSON value. An object keeps its pairs in the order written, and a key
/// may occur more than once.
#[derive(Debug, PartialEq)]
pub enum JsonValue {
    Object(Vec<(String, JsonValue)>),
    Array(Vec<JsonValue>),
    String(String),
    Number(Numeral),
    Boolean(bool),
    Null,
}

/// A JSON value as a mathematical value: texts and numerals are sequences of
/// characters, objects and arrays are sequences of pairs and of values.
pub enum SpecJson {
    Object(Seq<(Seq<char>, SpecJson)>),
    Array(Seq<SpecJson>),
    String(Seq<char>),
    Number(Seq<char>),
    Boolean(bool),
    Null,
}

impl View for JsonValue {
    type V = SpecJson;

    open spec fn view(&self) -> SpecJson
        decreases self,
    {
        match self {
            JsonValue::Object(pairs) => SpecJson::Object(
                Seq::new(
                    pairs.len() as nat,
                    |i: int|
                        if 0 <= i < pairs.len() {
                            pair_view(pairs[i])
                        } else {
                            (Seq::empty(), SpecJson::Null)
                        },
                ),
            ),
            JsonValue::Array(items) => SpecJson::Array(
                Seq::new(
                    items.len() as nat,
                    |i: int|
                        if 0 <= i < items.len() {
                            items[i]@
                        } else {
                            SpecJson::Null
                        },
                ),
            ),
            JsonValue::String(text) => SpecJson::String(text@),
            JsonValue::Number(number) => SpecJson::Number(number@),
            JsonValue::Boolean(b) => SpecJson::Boolean(*b),
            JsonValue::Null => SpecJson::Null,
        }
    }
}

/// A pair of an object as a mathematical value.
pub open spec fn pair_view(pair: (String, JsonValue)) -> (Seq<char>, SpecJson)
    decreases pair,
{
    (pair.0@, pair.1@)
}

impl DeepView for JsonValue {
    type V = SpecJson;

    open spec fn deep_view(&self) -> SpecJson {
        self@
    }
}

/// The view of an array is the sequence of the views of its items, and the
/// view of an object that of the views of its pairs, key by key and value
/// by value.
pub proof fn lemma_view_of_container(value: JsonValue)
    ensures
        value matches JsonValue::Array(items) ==> value@ == SpecJson::Array(items.deep_view())
            && forall|i: int| 0 <= i < items.len() ==> #[trigger] items.deep_view()[i] == items[i]@,
        value matches JsonValue::Object(pairs) ==> value@ == SpecJson::Object(pairs.deep_view())
            && forall|i: int|
            0 <= i < pairs.len() ==> #[trigger] pairs.deep_view()[i] == (pairs[i].0@, pairs[i].1@),
{
    match value {
        JsonValue::Array(items) => {
            assert(value@->Array_0 =~= items.deep_view());
        },
        JsonValue::Object(pairs) => {
            assert forall|i: int| 0 <= i < pairs.len() implies value@->Object_0[i]
                == pairs.deep_view()[i] by {
                assert(value@->Object_0[i] == pair_view(pairs[i]));
            }
            assert(value@->Object_0 =~= pairs.deep_view());
        },
        _ => {},
    }
}

/// The place of the first pair, from `from` on, whose key is `key`.
pub open spec fn find_key(pairs: Seq<(Seq<char>, SpecJson)>, key: Seq<char>, from: int) -> Option<
    int,
>
    decreases pairs.len() - from,
{
    if from < 0 || from >= pairs.len() {
        None
    } else if pairs[from].0 == key {
        Some(from)
    } else {
        find_key(pairs, key, from + 1)
    }
}

/// What [`JsonValue::len`] says of a value that has no length.
pub open spec fn len_message() -> Seq<char> {
    "len can be only perfomed with array and object type"@
}

impl SpecJson {
    /// The value under `key` in an object: that of the first pair with this key.
    pub open spec fn get(self, key: Seq<char>) -> Result<SpecJson, SpecParsedJsonError> {
        match self {
            SpecJson::Object(pairs) => match find_key(pairs, key, 0) {
                Some(i) => Ok(pairs[i].1),
                None => Err(SpecParsedJsonError::KeyNotFound(key)),
            },
            _ => Err(SpecParsedJsonError::UnexpectedType),
        }
    }

    /// The item at `index` in an array.
    pub open spec fn index(self, index: usize) -> Result<SpecJson, SpecParsedJsonError> {
        match self {
            SpecJson::Array(items) => if index < items.len() {
                Ok(items[index as int])
            } else {
                Err(SpecParsedJsonError::IndexOutOfBounds(index))
            },
            _ => Err(SpecParsedJsonError::UnexpectedType),
        }
    }

    /// The number of pairs of an object, or of items of an array.
    pub open spec fn len(self) -> Result<nat, SpecParsedJsonError> {
        match self {
            SpecJson::Object(pairs) => Ok(pairs.len()),
            SpecJson::Array(items) => Ok(items.len()),
            _ => Err(SpecParsedJsonError::InvalidMethodCall(len_message())),
        }
    }

    /// The text of a string value.
    pub open spec fn get_string(self) -> Result<Seq<char>, SpecParsedJsonError> {
        match self {
            SpecJson::String(text) => Ok(text),
            _ => Err(SpecParsedJsonError::UnexpectedType),
        }
    }

    /// The numeral of a number value.
    pub open spec fn get_number(self) -> Result<Seq<char>, SpecParsedJsonError> {
        match self {
            SpecJson::Number(number) => Ok(number),
            _ => Err(SpecParsedJsonError::UnexpectedType),
        }
    }

    /// The truth value of a boolean value.
    pub open spec fn get_boolean(self) -> Result<bool, SpecParsedJsonError> {
        match self {
            SpecJson::Boolean(b) => Ok(b),
            _ => Err(SpecParsedJsonError::UnexpectedType),
        }
    }
}

/// Where `find_key` finds a key, no pair before that place has it; where it
/// finds none, no pair has it.
pub proof fn lemma_find_key(pairs: Seq<(Seq<char>, SpecJson)>, key: Seq<char>, from: int)
    requires
        0 <= from <= pairs.len(),
    ensures
        match find_key(pairs, key, from) {
            Some(i) => from <= i < pairs.len() && pairs[i].0 == key && forall|j: int|
                from <= j < i ==> (#[trigger] pairs[j]).0 != key,
            None => forall|j: int| from <= j < pairs.len() ==> (#[trigger] pairs[j]).0 != key,
        },
    decreases pairs.len() - from,
{
    if from < pairs.len() && pairs[from].0 != key {
        lemma_find_key(pairs, key, from + 1);
    }
}

/// A pair of an object is found under its key, unless an earlier pair has
/// the same key.
pub proof fn lemma_get_finds_pair(pairs: Seq<(Seq<char>, SpecJson)>, i: int)
    requires
        0 <= i < pairs.len(),
        forall|j: int| 0 <= j < i ==> (#[trigger] pairs[j]).0 != pairs[i].0,
    ensures
        SpecJson::Object(pairs).get(pairs[i].0) == Ok::<SpecJson, SpecParsedJsonError>(pairs[i].1),
{
    lemma_find_key(pairs, pairs[i].0, 0);
}

/// Walking a value finds what it holds: an array has each item at its
/// index, an object has each pair under its key unless an earlier pair has
/// the same key, and both have the length of what they hold.
pub proof fn theorem_traversal(v: SpecJson)
    ensures
        v matches SpecJson::Array(items) ==> v.len() == Ok::<nat, SpecParsedJsonError>(
            items.len(),
        ) && forall|i: usize|
            i < items.len() ==> #[trigger] v.index(i) == Ok::<SpecJson, SpecParsedJsonError>(
                items[i as int],
            ),
        v matches SpecJson::Object(pairs) ==> v.len() == Ok::<nat, SpecParsedJsonError>(
            pairs.len(),
        ) && forall|i: int|
            0 <= i < pairs.len() && (forall|j: int|
                0 <= j < i ==> (#[trigger] pairs[j]).0 != pairs[i].0) ==> v.get(
                (#[trigger] pairs[i]).0,
            ) == Ok::<SpecJson, SpecParsedJsonError>(pairs[i].1),
{
    if let SpecJson::Object(pairs) = v {
        assert forall|i: int|
            0 <= i < pairs.len() && (forall|j: int|
                0 <= j < i ==> (#[trigger] pairs[j]).0 != pairs[i].0) implies v.get(
            (#[trigger] pairs[i]).0,
        ) == Ok::<SpecJson, SpecParsedJsonError>(pairs[i].1) by {
            lemma_get_finds_pair(pairs, i);
        }
    }
}

impl JsonValue {
    /// The value under `key` in an object: that of the first pair with this
    /// key, by reference.
    pub fn get(&self, key: &str) -> (result: Result<&JsonValue, ParsedJsonError>)
        ensures
            result_view(result) == self@.get(key@),
            result matches Ok(value) ==> *self matches JsonValue::Object(pairs) && find_key(
                self@->Object_0,
                key@,
                0,
            ) matches Some(i) && *value == pairs[i].1,
    {
        match self {
            JsonValue::Object(pairs) => {
                let ghost model = self@->Object_0;
                let mut i: usize = 0;
                while i < pairs.len()
                    invariant
                        *self matches JsonValue::Object(all) && all == *pairs,
                        model == self@->Object_0,
                        i <= pairs.len(),
                        find_key(model, key@, 0) == find_key(model, key@, i as int),
                    decreases pairs.len() - i,
                {
                    assert(model[i as int] == pair_view(pairs[i as int]));
                    if same_text(pairs[i].0.as_str(), key) {
                        return Ok(&pairs[i].1);
                    }
                    i += 1;
                }
                Err(ParsedJsonError::KeyNotFound(key.to_owned()))
            },
            _ => Err(ParsedJsonError::UnexpectedType),
        }
    }

    /// The text of a string value.
    pub fn get_string(&self) -> (result: Result<&str, ParsedJsonError>)
        ensures
            result_view(result) == self@.get_string(),
    {
        match self {
            JsonValue::String(text) => Ok(text.as_str()),
            _ => Err(ParsedJsonError::UnexpectedType),
        }
    }

    /// The numeral of a number value, by reference.
    pub fn get_number(&self) -> (result: Result<&Numeral, ParsedJsonError>)
        ensures
            result_view(result) == self@.get_number(),
            result matches Ok(number) ==> *self == JsonValue::Number(*number),
    {
        match self {
            JsonValue::Number(number) => Ok(number),
            _ => Err(ParsedJsonError::UnexpectedType),
        }
    }

    /// The truth value of a boolean value.
    pub fn get_boolean(&self) -> (result: Result<bool, ParsedJsonError>)
        ensures
            result_view(result) == self@.get_boolean(),
    {
        match self {
            JsonValue::Boolean(b) => Ok(*b),
            _ => Err(ParsedJsonError::UnexpectedType),
        }
    }

    /// Whether the value is null.
    pub fn is_null(&self) -> (null: bool)
        ensures
            null == (self@ is Null),
    {
        matches!(self, JsonValue::Null)
    }

    /// The value under `key` in an object: that of the first pair with this
    /// key, by reference.
    pub fn get_from_object(&self, key: &str) -> (result: Result<&JsonValue, ParsedJsonError>)
        ensures
            result_view(result) == self@.get(key@),
            result matches Ok(value) ==> *self matches JsonValue::Object(pairs) && find_key(
                self@->Object_0,
                key@,
                0,
            ) matches Some(i) && *value == pairs[i].1,
    {
        self.get(key)
    }

    /// The number of pairs of an object, or of items of an array.
    pub fn len(&self) -> (result: Result<usize, ParsedJsonError>)
        ensures
            match result {
                Ok(n) => self@.len() == Ok::<nat, SpecParsedJsonError>(n as nat),
                Err(e) => self@.len() == Err::<nat, SpecParsedJsonError>(e@),
            },
    {
        match self {
            JsonValue::Object(pairs) => Ok(pairs.len()),
            JsonValue::Array(items) => Ok(items.len()),
            _ => Err(
                ParsedJsonError::InvalidMethodCall(
                    "len can be only perfomed with array and object type".to_owned(),
                ),
            ),
        }
    }

    /// The item at `index` in an array, by reference.
    pub fn index(&self, index: usize) -> (result: Result<&JsonValue, ParsedJsonError>)
        ensures
            result_view(result) == self@.index(index),
            result matches Ok(value) ==> *self matches JsonValue::Array(items) && index
                < items.len() && *value == items[index as int],
    {
        match self {
            JsonValue::Array(items) => {
                if index < items.len() {
                    Ok(&items[index])
                } else {
                    Err(ParsedJsonError::IndexOutOfBounds(index))
                }
            },
            _ => Err(ParsedJsonError::UnexpectedType),
        }
    }
}

impl Clone for JsonValue {
    /// A copy of the whole tree.
    fn clone(&self) -> (copy: JsonValue)
        ensures
            copy@ == self@,
        decreases self,
    {
        match self {
            JsonValue::Object(pairs) => {
                let mut copies: Vec<(String, JsonValue)> = Vec::new();
                let mut i: usize = 0;
                while i < pairs.len()
                    invariant
                        *self matches JsonValue::Object(all) && all == *pairs,
                        i <= pairs.len(),
                        copies.len() == i,
                        forall|k: int| 0 <= k < i ==> pair_view(copies[k]) == pair_view(pairs[k]),
                    decreases pairs.len() - i,
                {
                    let value = pairs[i].1.clone();
                    copies.push((pairs[i].0.clone(), value));
                    i += 1;
                }
                let copy = JsonValue::Object(copies);
                assert(copy@->Object_0 =~= self@->Object_0);
                copy
            },
            JsonValue::Array(items) => {
                let mut copies: Vec<JsonValue> = Vec::new();
                let mut i: usize = 0;
                while i < items.len()
                    invariant
                        *self matches JsonValue::Array(all) && all == *items,
                        i <= items.len(),
                        copies.len() == i,
                        forall|k: int| 0 <= k < i ==> copies[k]@ == items[k]@,
                    decreases items.len() - i,
                {
                    copies.push(items[i].clone());
                    i += 1;
                }
                let copy = JsonValue::Array(copies);
                assert(copy@->Array_0 =~= self@->Array_0);
                copy
            },
            JsonValue::String(text) => JsonValue::String(text.clone()),
            JsonValue::Number(number) => JsonValue::Number(number.clone()),
            JsonValue::Boolean(b) => JsonValue::Boolean(*b),
            JsonValue::Null => JsonValue::Null,
        }
    }
}

impl std::ops::Index<usize> for JsonValue {
    type Output = JsonValue;

    /// `value[index]`: the item at `index`, by reference. The value must be an
    /// array with an item there; where that is not known, ask
    /// [`JsonValue::index`].
    fn index(&self, index: usize) -> (value: &JsonValue)
        returns
            &self->Array_0[index as int],
    {
        self.index(index).expect("Index out of bounds in JSON array")
    }
}

impl vstd::std_specs::core::IndexSpecImpl<usize> for JsonValue {
    open spec fn index_req(&self, index: &usize) -> bool {
        self@.index(*index) is Ok
    }
}

impl std::ops::Index<&str> for JsonValue {
    type Output = JsonValue;

    /// `value[key]`: the value of the first pair under `key`, by reference. The
    /// value must be an object with such a pair; where that is not known, ask
    /// [`JsonValue::get`].
    fn index(&self, key: &str) -> (value: &JsonValue)
        returns
            &self->Object_0[find_key(self@->Object_0, key@, 0)->0].1,
    {
        self.get(key).expect("Key not found in JSON object")
    }
}

impl vstd::std_specs::core::IndexSpecImpl<&str> for JsonValue {
    open spec fn index_req(&self, key: &&str) -> bool {
        self@.get((*key)@) is Ok
    }
}

} // verus!
