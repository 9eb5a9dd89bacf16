//! Tables from text to values, kept in the order of their keys.

use crate::text::same;
use vstd::prelude::*;
use vstd::string::*;

verus! {

/// Lexicographic order of texts by code point.
pub open spec fn text_less(a: Seq<char>, b: Seq<char>) -> bool
    decreases a.len(),
{
    if b.len() == 0 {
        false
    } else if a.len() == 0 {
        true
    } else if a[0] != b[0] {
        a[0] < b[0]
    } else {
        text_less(a.skip(1), b.skip(1))
    }
}

/// No text comes before itself.
pub proof fn lemma_less_irreflexive(a: Seq<char>)
    ensures
        !text_less(a, a),
    decreases a.len(),
{
    if a.len() > 0 {
        lemma_less_irreflexive(a.skip(1));
    }
}

/// The order is transitive.
pub proof fn lemma_less_transitive(a: Seq<char>, b: Seq<char>, c: Seq<char>)
    requires
        text_less(a, b),
        text_less(b, c),
    ensures
        text_less(a, c),
    decreases a.len(),
{
    if a.len() > 0 && b.len() > 0 && c.len() > 0 && a[0] == b[0] && b[0] == c[0] {
        lemma_less_transitive(a.skip(1), b.skip(1), c.skip(1));
    }
}

/// Two texts of which neither comes first are the same.
pub proof fn lemma_less_total(a: Seq<char>, b: Seq<char>)
    ensures
        text_less(a, b) || text_less(b, a) || a == b,
    decreases a.len(),
{
    if a.len() > 0 && b.len() > 0 && a[0] == b[0] {
        lemma_less_total(a.skip(1), b.skip(1));
        if a.skip(1) == b.skip(1) {
            assert(a =~= seq![a[0]] + a.skip(1));
            assert(b =~= seq![b[0]] + b.skip(1));
        }
    } else if a.len() == 0 && b.len() == 0 {
        assert(a =~= b);
    }
}

/// Whether one text comes before the other.
pub fn less(a: &str, b: &str) -> (r: bool)
    ensures
        r == text_less(a@, b@),
{
    let n: usize = a.unicode_len();
    let m: usize = b.unicode_len();
    let mut i: usize = 0;
    assert(a@.skip(0) =~= a@);
    assert(b@.skip(0) =~= b@);
    while i < n && i < m
        invariant
            n == a@.len(),
            m == b@.len(),
            i <= n,
            i <= m,
            text_less(a@, b@) == text_less(a@.skip(i as int), b@.skip(i as int)),
        decreases n - i,
    {
        let x = a.get_char(i);
        let y = b.get_char(i);
        if x != y {
            return x < y;
        }
        assert(a@.skip(i as int).skip(1) =~= a@.skip(i + 1));
        assert(b@.skip(i as int).skip(1) =~= b@.skip(i + 1));
        i += 1;
    }
    i < m
}

/// A table from text to values.
#[derive(Clone, Debug)]
pub struct Dict<T> {
    /// The entries, in the order of their keys.
    pub entries: Vec<(String, T)>,
}

/// The value of the first entry with the key.
pub open spec fn lookup<T>(entries: Seq<(String, T)>, key: Seq<char>) -> Option<T>
    decreases entries.len(),
{
    if entries.len() == 0 {
        None
    } else {
        match lookup(entries.drop_last(), key) {
            Some(found) => Some(found),
            None => if entries.last().0@ == key {
                Some(entries.last().1)
            } else {
                None
            },
        }
    }
}

/// Each key comes before those that follow it.
pub open spec fn in_order<T>(entries: Seq<(String, T)>) -> bool {
    forall|i: int, j: int|
        0 <= i < j < entries.len() ==> text_less(#[trigger] entries[i].0@, #[trigger] entries[j].0@)
}

/// How many leading entries have keys before the given one.
pub open spec fn rank<T>(entries: Seq<(String, T)>, key: Seq<char>) -> int
    decreases entries.len(),
{
    if entries.len() == 0 || !text_less(entries[0].0@, key) {
        0
    } else {
        1 + rank(entries.skip(1), key)
    }
}

/// The entries with the value for the key set.
pub open spec fn with_entry<T>(entries: Seq<(String, T)>, key: String, value: T) -> Seq<
    (String, T),
> {
    let at = rank(entries, key@);
    if at < entries.len() && entries[at].0@ == key@ {
        entries.update(at, (entries[at].0, value))
    } else {
        entries.insert(at, (key, value))
    }
}

/// Where an entry has the key, and the keys are in order, its value is the one found.
pub proof fn lemma_lookup_at<T>(entries: Seq<(String, T)>, i: int)
    requires
        in_order(entries),
        0 <= i < entries.len(),
    ensures
        lookup(entries, entries[i].0@) == Some(entries[i].1),
    decreases entries.len(),
{
    if i == entries.len() - 1 {
        let key = entries[i].0@;
        assert forall|j: int| 0 <= j < entries.drop_last().len() implies (#[trigger] entries.drop_last()[j]).0@
            != key by {
            assert(text_less(entries[j].0@, entries[i].0@));
            lemma_less_irreflexive(key);
        }
        lemma_lookup_absent(entries.drop_last(), key);
    } else {
        assert(entries.drop_last()[i] == entries[i]);
        lemma_lookup_at(entries.drop_last(), i);
    }
}

/// Nothing is found for a key that no entry has.
pub proof fn lemma_lookup_absent<T>(entries: Seq<(String, T)>, key: Seq<char>)
    requires
        forall|j: int| 0 <= j < entries.len() ==> (#[trigger] entries[j]).0@ != key,
    ensures
        lookup(entries, key) is None,
    decreases entries.len(),
{
    if entries.len() > 0 {
        assert forall|j: int| 0 <= j < entries.drop_last().len() implies (#[trigger] entries.drop_last()[j]).0@
            != key by {
            assert(entries.drop_last()[j] == entries[j]);
        }
        lemma_lookup_absent(entries.drop_last(), key);
        assert(entries.last() == entries[entries.len() - 1]);
    }
}

/// What is found is the value of an entry with the key.
pub proof fn lemma_lookup_found<T>(entries: Seq<(String, T)>, key: Seq<char>) -> (i: int)
    requires
        lookup(entries, key) is Some,
    ensures
        0 <= i < entries.len(),
        entries[i].0@ == key,
        lookup(entries, key) == Some(entries[i].1),
    decreases entries.len(),
{
    if lookup(entries.drop_last(), key) is Some {
        lemma_lookup_found(entries.drop_last(), key)
    } else {
        entries.len() - 1
    }
}

/// `rank` parts the entries at the key.
pub proof fn lemma_rank<T>(entries: Seq<(String, T)>, key: Seq<char>)
    ensures
        0 <= rank(entries, key) <= entries.len(),
        forall|j: int|
            0 <= j < rank(entries, key) ==> text_less(#[trigger] entries[j].0@, key),
        rank(entries, key) < entries.len() ==> !text_less(entries[rank(entries, key)].0@, key),
    decreases entries.len(),
{
    if entries.len() > 0 && text_less(entries[0].0@, key) {
        let rest = entries.skip(1);
        lemma_rank(rest, key);
        assert forall|j: int| 0 <= j < rank(entries, key) implies text_less(
            #[trigger] entries[j].0@,
            key,
        ) by {
            if j > 0 {
                assert(entries[j] == rest[j - 1]);
            }
        }
        if rank(rest, key) < rest.len() {
            assert(entries[rank(entries, key)] == rest[rank(rest, key)]);
        }
    }
}

/// Setting an entry keeps the keys in order.
pub proof fn lemma_with_entry_in_order<T>(entries: Seq<(String, T)>, key: String, value: T)
    requires
        in_order(entries),
    ensures
        in_order(with_entry(entries, key, value)),
{
    let at = rank(entries, key@);
    lemma_rank(entries, key@);
    let after = with_entry(entries, key, value);
    if at < entries.len() && entries[at].0@ == key@ {
        assert forall|i: int, j: int| 0 <= i < j < after.len() implies text_less(
            #[trigger] after[i].0@,
            #[trigger] after[j].0@,
        ) by {
            assert(after[i].0@ == entries[i].0@);
            assert(after[j].0@ == entries[j].0@);
        }
    } else {
        assert forall|i: int, j: int| 0 <= i < j < after.len() implies text_less(
            #[trigger] after[i].0@,
            #[trigger] after[j].0@,
        ) by {
            if at < entries.len() {
                lemma_less_total(entries[at].0@, key@);
            }
            if j < at {
                assert(after[i] == entries[i] && after[j] == entries[j]);
            } else if j == at {
                assert(after[i] == entries[i]);
            } else if i < at {
                assert(after[i] == entries[i] && after[j] == entries[j - 1]);
            } else if i == at {
                assert(after[j] == entries[j - 1]);
                if j - 1 > at {
                    lemma_less_transitive(key@, entries[at].0@, entries[j - 1].0@);
                }
            } else {
                assert(after[i] == entries[i - 1] && after[j] == entries[j - 1]);
            }
        }
    }
}

/// After setting an entry the key has the value, and every other key what it had.
pub proof fn lemma_with_entry_lookup<T>(
    entries: Seq<(String, T)>,
    key: String,
    value: T,
    other: Seq<char>,
)
    requires
        in_order(entries),
    ensures
        lookup(with_entry(entries, key, value), key@) == Some(value),
        other != key@ ==> lookup(with_entry(entries, key, value), other) == lookup(entries, other),
{
    let at = rank(entries, key@);
    lemma_rank(entries, key@);
    let after = with_entry(entries, key, value);
    lemma_with_entry_in_order(entries, key, value);
    assert(after[at].0@ == key@);
    lemma_lookup_at(after, at);
    if other != key@ {
        if lookup(entries, other) is Some {
            let i = lemma_lookup_found(entries, other);
            if after.len() == entries.len() || i < at {
                assert(after[i].0@ == other && after[i].1 == entries[i].1);
                lemma_lookup_at(after, i);
            } else {
                assert(after[i + 1] == entries[i]);
                lemma_lookup_at(after, i + 1);
            }
        } else if lookup(after, other) is Some {
            let i = lemma_lookup_found(after, other);
            if after.len() == entries.len() || i < at {
                assert(entries[i].0@ == other);
                lemma_lookup_at(entries, i);
            } else {
                assert(after[i] == entries[i - 1]);
                lemma_lookup_at(entries, i - 1);
            }
        }
    }
}

impl<T> Dict<T> {
    /// The keys are in order, so that each has one entry.
    pub open spec fn wf(self) -> bool {
        in_order(self.entries@)
    }

    /// The value for a key.
    pub open spec fn at(self, key: Seq<char>) -> Option<T> {
        lookup(self.entries@, key)
    }

    /// A table without entries.
    pub fn new() -> (r: Self)
        ensures
            r.entries@ == Seq::<(String, T)>::empty(),
            r.wf(),
    {
        Dict { entries: Vec::new() }
    }

    /// The number of entries.
    pub fn len(&self) -> (r: usize)
        ensures
            r == self.entries@.len(),
    {
        self.entries.len()
    }

    /// Whether there is no entry.
    pub fn is_empty(&self) -> (r: bool)
        ensures
            r == (self.entries@.len() == 0),
    {
        self.entries.len() == 0
    }

    /// The value for a key.
    pub fn get(&self, key: &str) -> (r: Option<&T>)
        ensures
            match r {
                Some(value) => self.at(key@) == Some(*value),
                None => self.at(key@) is None,
            },
    {
        let mut i: usize = 0;
        while i < self.entries.len()
            invariant
                i <= self.entries@.len(),
                lookup(self.entries@.take(i as int), key@) is None,
            decreases self.entries@.len() - i,
        {
            assert(self.entries@.take(i + 1).drop_last() =~= self.entries@.take(i as int));
            if same(self.entries[i].0.as_str(), key) {
                proof {
                    lemma_lookup_prefix(self.entries@, i + 1, key@);
                }
                return Some(&self.entries[i].1);
            }
            i += 1;
        }
        assert(self.entries@.take(i as int) =~= self.entries@);
        None
    }

    /// Whether the key has an entry.
    pub fn contains_key(&self, key: &str) -> (r: bool)
        ensures
            r == (self.at(key@) is Some),
    {
        self.get(key).is_some()
    }

    /// Sets the value for a key.
    pub fn insert(&mut self, key: String, value: T)
        ensures
            final(self).entries@ == with_entry(old(self).entries@, key, value),
            old(self).wf() ==> final(self).wf(),
    {
        let mut i: usize = 0;
        assert(self.entries@.skip(0) =~= self.entries@);
        while i < self.entries.len() && less(self.entries[i].0.as_str(), key.as_str())
            invariant
                i <= self.entries@.len(),
                rank(self.entries@, key@) == i + rank(self.entries@.skip(i as int), key@),
                self.entries@ == old(self).entries@,
            decreases self.entries@.len() - i,
        {
            assert(self.entries@.skip(i as int).skip(1) =~= self.entries@.skip(i + 1));
            i += 1;
        }
        proof {
            lemma_rank(self.entries@, key@);
            if old(self).wf() {
                lemma_with_entry_in_order(self.entries@, key, value);
            }
        }
        if i < self.entries.len() && same(self.entries[i].0.as_str(), key.as_str()) {
            let kept = self.entries[i].0.clone();
            self.entries.set(i, (kept, value));
        } else {
            self.entries.insert(i, (key, value));
        }
    }
}

/// What is found among the first entries is found among all.
pub proof fn lemma_lookup_prefix<T>(entries: Seq<(String, T)>, n: int, key: Seq<char>)
    requires
        0 <= n <= entries.len(),
        lookup(entries.take(n), key) is Some,
    ensures
        lookup(entries, key) == lookup(entries.take(n), key),
    decreases entries.len(),
{
    if n < entries.len() {
        assert(entries.drop_last().take(n) =~= entries.take(n));
        lemma_lookup_prefix(entries.drop_last(), n, key);
    } else {
        assert(entries.take(n) =~= entries);
    }
}

impl Dict<String> {
    /// The text for a key.
    pub open spec fn text_at(self, key: Seq<char>) -> Option<Seq<char>> {
        match self.at(key) {
            Some(value) => Some(value@),
            None => None,
        }
    }

    /// Sets the texts of the other table.
    pub fn extend(&mut self, other: &Dict<String>)
        requires
            old(self).wf(),
            other.wf(),
        ensures
            final(self).wf(),
            forall|key: Seq<char>| #[trigger]
                final(self).text_at(key) == match other.text_at(key) {
                    Some(text) => Some(text),
                    None => old(self).text_at(key),
                },
    {
        let ghost start = *self;
        let mut i: usize = 0;
        assert(other.entries@.take(0) =~= Seq::empty());
        while i < other.entries.len()
            invariant
                i <= other.entries@.len(),
                other.wf(),
                self.wf(),
                forall|key: Seq<char>| #[trigger]
                    self.text_at(key) == match lookup(other.entries@.take(i as int), key) {
                        Some(text) => Some(text@),
                        None => start.text_at(key),
                    },
            decreases other.entries@.len() - i,
        {
            let ghost before = *self;
            let key = other.entries[i].0.clone();
            let value = other.entries[i].1.clone();
            self.insert(key, value);
            proof {
                let longer = other.entries@.take(i + 1);
                assert(longer.drop_last() =~= other.entries@.take(i as int));
                assert(in_order(longer));
                assert forall|k: Seq<char>| #[trigger] self.text_at(k) == match lookup(longer, k) {
                    Some(text) => Some(text@),
                    None => start.text_at(k),
                } by {
                    lemma_with_entry_lookup(before.entries@, key, value, k);
                    assert(before.text_at(k) == match lookup(other.entries@.take(i as int), k) {
                        Some(text) => Some(text@),
                        None => start.text_at(k),
                    });
                    if k == key@ {
                        lemma_lookup_at(longer, i as int);
                    }
                }
            }
            i += 1;
        }
        assert(other.entries@.take(i as int) =~= other.entries@);
    }

    /// Sets the text for a key.
    pub fn set_text(&mut self, key: &str, value: String)
        requires
            old(self).wf(),
        ensures
            final(self).wf(),
            forall|k: Seq<char>| #[trigger]
                final(self).text_at(k) == if k == key@ {
                    Some(value@)
                } else {
                    old(self).text_at(k)
                },
    {
        let ghost before = *self;
        let name = key.to_owned();
        self.insert(name, value);
        proof {
            assert forall|k: Seq<char>| #[trigger] self.text_at(k) == if k == key@ {
                Some(value@)
            } else {
                before.text_at(k)
            } by {
                lemma_with_entry_lookup(before.entries@, name, value, k);
            }
        }
    }

    /// A copy of the table.
    pub fn copy(&self) -> (r: Dict<String>)
        ensures
            r.entries@ == self.entries@,
    {
        let mut out: Vec<(String, String)> = Vec::new();
        let mut i: usize = 0;
        while i < self.entries.len()
            invariant
                i <= self.entries@.len(),
                out@ =~= self.entries@.take(i as int),
            decreases self.entries@.len() - i,
        {
            out.push((self.entries[i].0.clone(), self.entries[i].1.clone()));
            i += 1;
        }
        assert(self.entries@.take(i as int) =~= self.entries@);
        Dict { entries: out }
    }
}

/// A set of names, in their order.
pub struct Names {
    pub table: Dict<()>,
}

impl Names {
    /// The names are in order, each once.
    pub open spec fn wf(self) -> bool {
        self.table.wf()
    }

    /// The name is in the set.
    pub open spec fn has(self, name: Seq<char>) -> bool {
        self.table.at(name) is Some
    }

    /// The empty set.
    pub fn new() -> (r: Self)
        ensures
            r.wf(),
            forall|name: Seq<char>| !#[trigger] r.has(name),
    {
        Names { table: Dict::new() }
    }

    /// Adds a name.
    pub fn add(&mut self, name: &str)
        requires
            old(self).wf(),
        ensures
            final(self).wf(),
            forall|k: Seq<char>| #[trigger] final(self).has(k) == (k == name@ || old(self).has(k)),
    {
        let ghost before = self.table;
        let key = name.to_owned();
        self.table.insert(key, ());
        proof {
            assert forall|k: Seq<char>| #[trigger] self.has(k) == (k == name@ || before.at(
                k,
            ) is Some) by {
                lemma_with_entry_lookup(before.entries@, key, (), k);
            }
        }
    }

    /// Whether the name is in the set.
    pub fn contains(&self, name: &str) -> (r: bool)
        ensures
            r == self.has(name@),
    {
        self.table.contains_key(name)
    }

    /// The names, in their order.
    pub fn list(&self) -> (r: Vec<String>)
        requires
            self.wf(),
        ensures
            names_are(r@, |name: Seq<char>| self.has(name)),
    {
        let mut out: Vec<String> = Vec::new();
        let entries = &self.table.entries;
        let mut i: usize = 0;
        while i < entries.len()
            invariant
                *entries == self.table.entries,
                i <= entries@.len(),
                out@.len() == i,
                forall|j: int| 0 <= j < i ==> (#[trigger] out@[j]) == entries@[j].0,
            decreases entries@.len() - i,
        {
            out.push(entries[i].0.clone());
            i += 1;
        }
        proof {
            assert forall|k: Seq<char>| #[trigger] crate::text::lists(out@, k) == self.has(k) by {
                if crate::text::lists(out@, k) {
                    let j = choose|j: int| 0 <= j < out@.len() && (#[trigger] out@[j])@ == k;
                    lemma_lookup_at(entries@, j);
                    assert(entries@[j].0@ == k);
                } else if self.has(k) {
                    let j = lemma_lookup_found(entries@, k);
                    assert(out@[j]@ == k);
                }
            }
            assert forall|a: int, b: int| 0 <= a < b < out@.len() implies text_less(
                (#[trigger] out@[a])@,
                (#[trigger] out@[b])@,
            ) by {
                assert(text_less(entries@[a].0@, entries@[b].0@));
            }
        }
        out
    }
}

/// The list holds exactly the given names, in their order.
pub open spec fn names_are(list: Seq<String>, has: spec_fn(Seq<char>) -> bool) -> bool {
    &&& forall|a: int, b: int|
        0 <= a < b < list.len() ==> text_less((#[trigger] list[a])@, (#[trigger] list[b])@)
    &&& forall|name: Seq<char>| #[trigger] crate::text::lists(list, name) == has(name)
}

} // verus!
