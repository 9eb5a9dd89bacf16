//! JSON documents as trees of plain values.

use crate::text::same;
use vstd::prelude::*;
use vstd::string::*;

verus! {

/// A JSON value.
#[derive(Debug)]
pub enum JsonValue {
    Null,
    Bool(bool),
    /// A whole number that is not negative and fits sixty-four bits.
    Unsigned(u64),
    /// Any other number, as it is written.
    Number(String),
    Text(String),
    Array(Vec<JsonValue>),
    Object(Vec<(String, JsonValue)>),
}

/// What a JSON value holds.
pub enum JsonTree {
    Null,
    Bool(bool),
    Unsigned(u64),
    Number(Seq<char>),
    Text(Seq<char>),
    Array(Seq<JsonTree>),
    Object(Seq<(Seq<char>, JsonTree)>),
}

/// What a value holds.
pub open spec fn json_tree(value: JsonValue) -> JsonTree
    decreases value,
{
    match value {
        JsonValue::Null => JsonTree::Null,
        JsonValue::Bool(flag) => JsonTree::Bool(flag),
        JsonValue::Unsigned(number) => JsonTree::Unsigned(number),
        JsonValue::Number(text) => JsonTree::Number(text@),
        JsonValue::Text(text) => JsonTree::Text(text@),
        JsonValue::Array(items) => JsonTree::Array(json_items(items@)),
        JsonValue::Object(entries) => JsonTree::Object(json_entries(entries@)),
    }
}

/// What the items of an array hold.
pub open spec fn json_items(items: Seq<JsonValue>) -> Seq<JsonTree>
    decreases items,
{
    if items.len() == 0 {
        Seq::empty()
    } else {
        json_items(items.drop_last()).push(json_tree(items[items.len() - 1]))
    }
}

/// What the entries of an object hold.
pub open spec fn json_entries(entries: Seq<(String, JsonValue)>) -> Seq<(Seq<char>, JsonTree)>
    decreases entries,
{
    if entries.len() == 0 {
        Seq::empty()
    } else {
        json_entries(entries.drop_last()).push(
            (entries[entries.len() - 1].0@, json_tree(entries[entries.len() - 1].1)),
        )
    }
}

/// What the items hold, one by one.
pub proof fn lemma_json_items(items: Seq<JsonValue>)
    ensures
        json_items(items).len() == items.len(),
        forall|i: int|
            0 <= i < items.len() ==> (#[trigger] json_items(items)[i]) == json_tree(items[i]),
    decreases items.len(),
{
    if items.len() > 0 {
        lemma_json_items(items.drop_last());
    }
}

/// What the entries hold, one by one.
pub proof fn lemma_json_entries(entries: Seq<(String, JsonValue)>)
    ensures
        json_entries(entries).len() == entries.len(),
        forall|i: int|
            0 <= i < entries.len() ==> (#[trigger] json_entries(entries)[i]) == (
                entries[i].0@,
                json_tree(entries[i].1),
            ),
    decreases entries.len(),
{
    if entries.len() > 0 {
        lemma_json_entries(entries.drop_last());
    }
}

impl View for JsonValue {
    type V = JsonTree;

    open spec fn view(&self) -> JsonTree {
        json_tree(*self)
    }
}

/// The value of a field among entries.
pub open spec fn entry_of(entries: Seq<(Seq<char>, JsonTree)>, key: Seq<char>) -> Option<JsonTree>
    decreases entries.len(),
{
    if entries.len() == 0 {
        None
    } else if entries[entries.len() - 1].0 == key {
        Some(entries[entries.len() - 1].1)
    } else {
        entry_of(entries.drop_last(), key)
    }
}

impl JsonTree {
    /// The value of a field; none where the value is no object or lacks it.
    pub open spec fn field(self, key: Seq<char>) -> Option<JsonTree> {
        match self {
            JsonTree::Object(entries) => entry_of(entries, key),
            _ => None,
        }
    }
}

/// What an optional value holds.
pub open spec fn optional_json(value: Option<&JsonValue>) -> Option<JsonTree> {
    match value {
        Some(found) => Some(found@),
        None => None,
    }
}

impl JsonValue {
    /// The value of a field; none where the value is no object or lacks it.
    pub fn get(&self, key: &str) -> (r: Option<&JsonValue>)
        ensures
            optional_json(r) == self@.field(key@),
    {
        match self {
            JsonValue::Object(entries) => {
                let ghost all = json_entries(entries@);
                proof {
                    lemma_json_entries(entries@);
                }
                let mut i: usize = entries.len();
                assert(all.take(i as int) =~= all);
                while i > 0
                    invariant
                        i <= entries@.len(),
                        all == json_entries(entries@),
                        all.len() == entries@.len(),
                        forall|j: int|
                            0 <= j < entries@.len() ==> (#[trigger] all[j]) == (
                                entries@[j].0@,
                                json_tree(entries@[j].1),
                            ),
                        entry_of(all, key@) == entry_of(all.take(i as int), key@),
                        self@ == JsonTree::Object(all),
                    decreases i,
                {
                    proof {
                        assert(all.take(i as int).drop_last() =~= all.take(i - 1));
                        assert(all.take(i as int)[i - 1] == all[i - 1]);
                    }
                    if same(entries[i - 1].0.as_str(), key) {
                        return Some(&entries[i - 1].1);
                    }
                    i -= 1;
                }
                None
            },
            _ => None,
        }
    }
}

// ---------------------------------------------------------------------------
// Reading documents

/// A value as the JSON parser gives it.
#[verifier::external_type_specification]
#[verifier::external_body]
pub struct ExJsonValue(serde_json::Value);

/// What a parsed value holds.
pub uninterp spec fn json_contents(value: serde_json::Value) -> JsonTree;

/// What `serde_json::from_slice` reads from bytes as a value, or the text of its
/// error.
pub uninterp spec fn json_parsed(bytes: Seq<u8>) -> Result<JsonTree, Seq<char>>;

/// `serde_json::from_slice` for a `serde_json::Value`: the value that the bytes
/// denote, or the error in words.
#[verifier::external_body]
fn parse_value(bytes: &[u8]) -> (r: Result<serde_json::Value, String>)
    ensures
        match r {
            Ok(value) => json_parsed(bytes@) == Ok::<JsonTree, Seq<char>>(json_contents(value)),
            Err(message) => json_parsed(bytes@) == Err::<JsonTree, Seq<char>>(message@),
        },
{
    serde_json::from_slice(bytes).map_err(|error| error.to_string())
}

/// `serde_json::Value`, variant by variant: each holds what the tree says of it;
/// a number is taken by `as_u64` where it has one and by its text otherwise.
#[verifier::external_body]
fn convert(value: serde_json::Value) -> (r: JsonValue)
    ensures
        r@ == json_contents(value),
{
    match value {
        serde_json::Value::Null => JsonValue::Null,
        serde_json::Value::Bool(flag) => JsonValue::Bool(flag),
        serde_json::Value::Number(number) => match number.as_u64() {
            Some(whole) => JsonValue::Unsigned(whole),
            None => JsonValue::Number(number.to_string()),
        },
        serde_json::Value::String(text) => JsonValue::Text(text),
        serde_json::Value::Array(items) => JsonValue::Array(items.into_iter().map(convert).collect()),
        serde_json::Value::Object(map) => JsonValue::Object(
            map.into_iter().map(|(key, item)| (key, convert(item))).collect(),
        ),
    }
}

/// The value of a document.
pub fn read_json(bytes: &[u8]) -> (r: Result<JsonValue, String>)
    ensures
        match r {
            Ok(value) => json_parsed(bytes@) == Ok::<JsonTree, Seq<char>>(value@),
            Err(message) => json_parsed(bytes@) == Err::<JsonTree, Seq<char>>(message@),
        },
{
    match parse_value(bytes) {
        Ok(value) => Ok(convert(value)),
        Err(message) => Err(message),
    }
}

/// The last of several fields of one name counts; a field of another name changes nothing,
/// and a value that is no object has no field.
pub proof fn law_last_field_counts(
    entries: Seq<(Seq<char>, JsonTree)>,
    key: Seq<char>,
    value: JsonTree,
    other: Seq<char>,
)
    ensures
        JsonTree::Object(entries.push((key, value))).field(key) == Some(value),
        other != key ==> JsonTree::Object(entries.push((key, value))).field(other)
            == JsonTree::Object(entries).field(other),
        JsonTree::Object(Seq::empty()).field(key) is None,
        !(value is Object) ==> value.field(key) is None,
{
    assert(entries.push((key, value)).drop_last() =~= entries);
}

} // verus!
