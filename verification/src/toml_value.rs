//! TOML documents as trees of plain values.

use crate::dict::{less, text_less};
use crate::text::same;
use vstd::prelude::*;
use vstd::string::*;

verus! {

/// A TOML value.
#[derive(Debug)]
pub enum TomlValue {
    Text(String),
    Integer(i64),
    /// A number with a fraction, by its IEEE 754 bits.
    Fraction(u64),
    Boolean(bool),
    /// A date or time, as it is written.
    Moment(String),
    Array(Vec<TomlValue>),
    /// The entries of a table, in the order of their keys.
    Table(Vec<(String, TomlValue)>),
}

/// What a TOML value holds.
pub enum Tree {
    Text(Seq<char>),
    Integer(i64),
    Fraction(u64),
    Boolean(bool),
    Moment(Seq<char>),
    Array(Seq<Tree>),
    Table(Seq<(Seq<char>, Tree)>),
}

/// What a value holds.
pub open spec fn tree_of(value: TomlValue) -> Tree
    decreases value,
{
    match value {
        TomlValue::Text(text) => Tree::Text(text@),
        TomlValue::Integer(number) => Tree::Integer(number),
        TomlValue::Fraction(bits) => Tree::Fraction(bits),
        TomlValue::Boolean(flag) => Tree::Boolean(flag),
        TomlValue::Moment(text) => Tree::Moment(text@),
        TomlValue::Array(items) => Tree::Array(items_of(items@)),
        TomlValue::Table(entries) => Tree::Table(entries_of(entries@)),
    }
}

/// What the items of an array hold.
pub open spec fn items_of(items: Seq<TomlValue>) -> Seq<Tree>
    decreases items,
{
    if items.len() == 0 {
        Seq::empty()
    } else {
        items_of(items.drop_last()).push(tree_of(items[items.len() - 1]))
    }
}

/// What the entries of a table hold.
pub open spec fn entries_of(entries: Seq<(String, TomlValue)>) -> Seq<(Seq<char>, Tree)>
    decreases entries,
{
    if entries.len() == 0 {
        Seq::empty()
    } else {
        entries_of(entries.drop_last()).push(
            (entries[entries.len() - 1].0@, tree_of(entries[entries.len() - 1].1)),
        )
    }
}

/// What the entries hold, one by one.
pub proof fn lemma_entries(entries: Seq<(String, TomlValue)>)
    ensures
        entries_of(entries).len() == entries.len(),
        forall|i: int|
            0 <= i < entries.len() ==> (#[trigger] entries_of(entries)[i]) == (
                entries[i].0@,
                tree_of(entries[i].1),
            ),
    decreases entries.len(),
{
    if entries.len() > 0 {
        lemma_entries(entries.drop_last());
    }
}

/// What the items hold, one by one.
pub proof fn lemma_items(items: Seq<TomlValue>)
    ensures
        items_of(items).len() == items.len(),
        forall|i: int|
            0 <= i < items.len() ==> (#[trigger] items_of(items)[i]) == tree_of(items[i]),
    decreases items.len(),
{
    if items.len() > 0 {
        lemma_items(items.drop_last());
    }
}

/// Entries that hold the same hold the same together.
pub proof fn lemma_entries_are(entries: Seq<(String, TomlValue)>, trees: Seq<(Seq<char>, Tree)>)
    requires
        entries.len() == trees.len(),
        forall|i: int|
            0 <= i < entries.len() ==> (#[trigger] trees[i]) == (
                entries[i].0@,
                tree_of(entries[i].1),
            ),
    ensures
        entries_of(entries) == trees,
{
    lemma_entries(entries);
    assert(entries_of(entries) =~= trees);
}

impl View for TomlValue {
    type V = Tree;

    open spec fn view(&self) -> Tree {
        tree_of(*self)
    }
}

/// A copy of the value.
pub fn copy_value(value: &TomlValue) -> (r: TomlValue)
    ensures
        r@ == value@,
    decreases *value,
{
    match value {
        TomlValue::Text(text) => TomlValue::Text(text.clone()),
        TomlValue::Integer(number) => TomlValue::Integer(*number),
        TomlValue::Fraction(bits) => TomlValue::Fraction(*bits),
        TomlValue::Boolean(flag) => TomlValue::Boolean(*flag),
        TomlValue::Moment(text) => TomlValue::Moment(text.clone()),
        TomlValue::Array(items) => {
            let out = copy_items(items, items.len());
            assert(items@.take(items@.len() as int) =~= items@);
            TomlValue::Array(out)
        },
        TomlValue::Table(entries) => {
            let out = copy_entries(entries, entries.len());
            assert(entries@.take(entries@.len() as int) =~= entries@);
            TomlValue::Table(out)
        },
    }
}

fn copy_items(items: &Vec<TomlValue>, n: usize) -> (r: Vec<TomlValue>)
    requires
        n <= items@.len(),
    ensures
        items_of(r@) == items_of(items@.take(n as int)),
    decreases *items, n,
{
    if n == 0 {
        return Vec::new();
    }
    let mut out = copy_items(items, n - 1);
    let ghost before = out@;
    let last = copy_value(&items[n - 1]);
    out.push(last);
    proof {
        let whole = items@.take(n as int);
        assert(whole.drop_last() =~= items@.take(n - 1));
        assert(whole[whole.len() - 1] == items@[n - 1]);
        assert(out@.drop_last() =~= before);
        assert(out@[out@.len() - 1] == last);
    }
    out
}

fn copy_entries(entries: &Vec<(String, TomlValue)>, n: usize) -> (r: Vec<(String, TomlValue)>)
    requires
        n <= entries@.len(),
    ensures
        entries_of(r@) == entries_of(entries@.take(n as int)),
    decreases *entries, n,
{
    if n == 0 {
        return Vec::new();
    }
    let mut out = copy_entries(entries, n - 1);
    let ghost before = out@;
    let last = copy_value(&entries[n - 1].1);
    let key = entries[n - 1].0.clone();
    out.push((key, last));
    proof {
        let whole = entries@.take(n as int);
        assert(whole.drop_last() =~= entries@.take(n - 1));
        assert(whole[whole.len() - 1] == entries@[n - 1]);
        assert(out@.drop_last() =~= before);
        assert(out@[out@.len() - 1] == (key, last));
    }
    out
}

// ---------------------------------------------------------------------------
// Entries

/// The place of the first entry with the key; the length where there is none.
pub open spec fn entry_index(entries: Seq<(Seq<char>, Tree)>, key: Seq<char>) -> int
    decreases entries.len(),
{
    if entries.len() == 0 {
        0
    } else if entries[0].0 == key {
        0
    } else {
        1 + entry_index(entries.skip(1), key)
    }
}

/// How many leading entries have keys before the given one.
pub open spec fn entry_rank(entries: Seq<(Seq<char>, Tree)>, key: Seq<char>) -> int
    decreases entries.len(),
{
    if entries.len() == 0 || !text_less(entries[0].0, key) {
        0
    } else {
        1 + entry_rank(entries.skip(1), key)
    }
}

/// The entry for the key.
pub open spec fn entry_at(entries: Seq<(Seq<char>, Tree)>, key: Seq<char>) -> Option<Tree> {
    if entry_index(entries, key) < entries.len() {
        Some(entries[entry_index(entries, key)].1)
    } else {
        None
    }
}

/// The entries with the one for the key set.
pub open spec fn set_entry(entries: Seq<(Seq<char>, Tree)>, key: Seq<char>, value: Tree) -> Seq<
    (Seq<char>, Tree),
> {
    let at = entry_index(entries, key);
    if at < entries.len() {
        entries.update(at, (key, value))
    } else {
        entries.insert(entry_rank(entries, key), (key, value))
    }
}

/// `entry_index` is the least place of the key.
pub proof fn lemma_entry_index(entries: Seq<(Seq<char>, Tree)>, key: Seq<char>)
    ensures
        0 <= entry_index(entries, key) <= entries.len(),
        forall|j: int| 0 <= j < entry_index(entries, key) ==> (#[trigger] entries[j]).0 != key,
        entry_index(entries, key) < entries.len() ==> entries[entry_index(entries, key)].0 == key,
    decreases entries.len(),
{
    if entries.len() > 0 && entries[0].0 != key {
        let rest = entries.skip(1);
        lemma_entry_index(rest, key);
        assert forall|j: int| 0 <= j < entry_index(entries, key) implies (
        #[trigger] entries[j]).0 != key by {
            if j > 0 {
                assert(entries[j] == rest[j - 1]);
            }
        }
        if entry_index(rest, key) < rest.len() {
            assert(entries[entry_index(entries, key)] == rest[entry_index(rest, key)]);
        }
    }
}

/// `entry_rank` is a place among the entries.
pub proof fn lemma_entry_rank(entries: Seq<(Seq<char>, Tree)>, key: Seq<char>)
    ensures
        0 <= entry_rank(entries, key) <= entries.len(),
    decreases entries.len(),
{
    if entries.len() > 0 {
        lemma_entry_rank(entries.skip(1), key);
    }
}

/// The place of the first entry with the key, if any.
pub fn find_entry(entries: &[(String, TomlValue)], key: &str) -> (r: Option<usize>)
    ensures
        match r {
            Some(i) => i < entries@.len() && entry_index(entries_of(entries@), key@) == i,
            None => entry_index(entries_of(entries@), key@) == entries@.len(),
        },
{
    let ghost trees = entries_of(entries@);
    proof {
        lemma_entries(entries@);
        lemma_entry_index(trees, key@);
    }
    let mut i: usize = 0;
    while i < entries.len()
        invariant
            i <= entries@.len(),
            trees == entries_of(entries@),
            trees.len() == entries@.len(),
            forall|j: int|
                0 <= j < entries@.len() ==> (#[trigger] trees[j]) == (
                    entries@[j].0@,
                    tree_of(entries@[j].1),
                ),
            0 <= entry_index(trees, key@) <= trees.len(),
            forall|j: int| 0 <= j < entry_index(trees, key@) ==> (#[trigger] trees[j]).0 != key@,
            entry_index(trees, key@) < trees.len() ==> trees[entry_index(trees, key@)].0 == key@,
            i <= entry_index(trees, key@),
        decreases entries@.len() - i,
    {
        assert(trees[i as int].0 == entries@[i as int].0@);
        if same(entries[i].0.as_str(), key) {
            return Some(i);
        }
        i += 1;
    }
    None
}

fn find_rank(entries: &[(String, TomlValue)], key: &str) -> (r: usize)
    ensures
        r == entry_rank(entries_of(entries@), key@),
        r <= entries@.len(),
{
    let ghost trees = entries_of(entries@);
    proof {
        lemma_entries(entries@);
        lemma_entry_rank(trees, key@);
    }
    let mut i: usize = 0;
    assert(trees.skip(0) =~= trees);
    while i < entries.len() && less(entries[i].0.as_str(), key)
        invariant
            i <= entries@.len(),
            trees.len() == entries@.len(),
            forall|j: int|
                0 <= j < entries@.len() ==> (#[trigger] trees[j]) == (
                    entries@[j].0@,
                    tree_of(entries@[j].1),
                ),
            entry_rank(trees, key@) == i + entry_rank(trees.skip(i as int), key@),
        decreases entries@.len() - i,
    {
        assert(trees.skip(i as int)[0] == trees[i as int]);
        assert(trees.skip(i as int).skip(1) =~= trees.skip(i + 1));
        i += 1;
    }
    if i < entries.len() {
        assert(trees.skip(i as int)[0] == trees[i as int]);
    }
    i
}

/// Sets the entry for the key.
pub fn put_entry(entries: Vec<(String, TomlValue)>, key: &str, value: TomlValue) -> (r: Vec<
    (String, TomlValue),
>)
    ensures
        entries_of(r@) == set_entry(entries_of(entries@), key@, value@),
{
    let ghost trees = entries_of(entries@);
    proof {
        lemma_entries(entries@);
        lemma_entry_index(trees, key@);
        lemma_entry_rank(trees, key@);
    }
    let name = key.to_owned();
    let mut out = entries;
    match find_entry(out.as_slice(), key) {
        Some(i) => {
            out.set(i, (name, value));
            proof {
                lemma_entries_are(out@, trees.update(i as int, (key@, value@)));
            }
        },
        None => {
            let at: usize = find_rank(out.as_slice(), key);
            out.insert(at, (name, value));
            proof {
                lemma_entries_are(out@, trees.insert(at as int, (key@, value@)));
            }
        },
    }
    out
}

// ---------------------------------------------------------------------------
// Reading documents

/// A value as the TOML parser gives it.
#[verifier::external_type_specification]
#[verifier::external_body]
pub struct ExTomlValue(toml::Value);

/// What a parsed value holds.
pub uninterp spec fn toml_contents(value: toml::Value) -> Tree;

/// What `toml::from_str` reads from a text as a table, or the text of its error.
pub uninterp spec fn toml_parsed(text: Seq<char>) -> Result<Tree, Seq<char>>;

/// `toml::from_str` for a `toml::Table`: the table that the text denotes, or the
/// error in words.
#[verifier::external_body]
fn parse_table(text: &str) -> (r: Result<toml::Value, String>)
    ensures
        match r {
            Ok(value) => toml_parsed(text@) == Ok::<Tree, Seq<char>>(toml_contents(value))
                && toml_contents(value) is Table,
            Err(message) => toml_parsed(text@) == Err::<Tree, Seq<char>>(message@),
        },
{
    match toml::from_str::<toml::Table>(text) {
        Ok(table) => Ok(toml::Value::Table(table)),
        Err(error) => Err(error.to_string()),
    }
}

/// `toml::Value`, variant by variant: each holds what the tree says of it; a
/// number with a fraction is taken by its bits and a moment by its text.
#[verifier::external_body]
fn convert(value: toml::Value) -> (r: TomlValue)
    ensures
        r@ == toml_contents(value),
{
    match value {
        toml::Value::String(text) => TomlValue::Text(text),
        toml::Value::Integer(number) => TomlValue::Integer(number),
        toml::Value::Float(number) => TomlValue::Fraction(number.to_bits()),
        toml::Value::Boolean(flag) => TomlValue::Boolean(flag),
        toml::Value::Datetime(moment) => TomlValue::Moment(moment.to_string()),
        toml::Value::Array(items) => TomlValue::Array(items.into_iter().map(convert).collect()),
        toml::Value::Table(table) => TomlValue::Table(
            table.into_iter().map(|(key, item)| (key, convert(item))).collect(),
        ),
    }
}

/// The entries of the document.
pub fn read_document(text: &str) -> (r: Result<Vec<(String, TomlValue)>, String>)
    ensures
        match r {
            Ok(entries) => toml_parsed(text@) == Ok::<Tree, Seq<char>>(
                Tree::Table(entries_of(entries@)),
            ),
            Err(message) => toml_parsed(text@) == Err::<Tree, Seq<char>>(message@),
        },
{
    match parse_table(text) {
        Err(message) => Err(message),
        Ok(value) => match convert(value) {
            TomlValue::Table(entries) => Ok(entries),
            _ => Ok(Vec::new()),
        },
    }
}

} // verus!
