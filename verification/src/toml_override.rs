//! Invocation overrides: exact TOML assignments and how they compose with a
//! definition.

use crate::error::InferlabError;
use crate::search::{
    first_index, lemma_first_index, lemma_first_index_is,
};
use crate::text::{
    after_prefix, cat2, cat3, cat5, contains_char, copy_list, debug, debug_text, find_char, lemma_position,
    position, same, starts, starts_with, strip_prefix, texts, text_of,
};
use crate::toml_value::{
    copy_value, entries_of, entry_at, entry_index, entry_rank, find_entry, items_of, lemma_entries,
    lemma_entry_index, lemma_entry_rank, lemma_items, put_entry, read_document, set_entry, toml_parsed, tree_of,
    TomlValue, Tree,
};
use vstd::prelude::*;
use vstd::string::*;

verus! {

// ---------------------------------------------------------------------------
// Groups of extra arguments

/// One segmented flag group: the flag token (or the verbatim `--` passthrough
/// block) plus every value token belonging to it.
pub struct ExtraArgsGroup {
    pub name: String,
    pub tokens: Vec<String>,
}

/// What a group holds.
pub struct Group {
    pub name: Seq<char>,
    pub tokens: Seq<Seq<char>>,
}

impl View for ExtraArgsGroup {
    type V = Group;

    open spec fn view(&self) -> Group {
        Group { name: self.name@, tokens: texts(self.tokens@) }
    }
}

/// What the groups hold.
pub open spec fn groups_of(groups: Seq<ExtraArgsGroup>) -> Seq<Group> {
    Seq::new(groups.len(), |i: int| groups[i]@)
}

/// Which of the groups has the name.
pub open spec fn name_is(groups: Seq<Group>, name: Seq<char>) -> spec_fn(int) -> bool {
    |i: int| groups[i].name == name
}

/// The place of the first group with the name.
pub open spec fn named(groups: Seq<Group>, name: Seq<char>) -> Option<int> {
    first_index(groups.len(), name_is(groups, name))
}

/// The groups with one token more in the one at the place.
pub open spec fn extended(groups: Seq<Group>, i: int, token: Seq<char>) -> Seq<Group> {
    groups.update(i, Group { name: groups[i].name, tokens: groups[i].tokens.push(token) })
}

/// The flag that a token names: what stands before any `=`.
pub open spec fn flag_name(token: Seq<char>) -> Seq<char> {
    token.take(position(token, '='))
}

/// A second passthrough sentinel is malformed.
pub open spec fn second_sentinel_text(path: Seq<char>) -> Seq<char> {
    "extra_args at "@ + path
        + " declares a second bare `--`; one array carries a single verbatim passthrough block"@
}

/// A value token before any flag is malformed.
pub open spec fn stray_token_text(token: Seq<char>, path: Seq<char>) -> Seq<char> {
    "extra_args value token "@ + debug_text(token) + " at "@ + path + " precedes any flag"@
}

/// The name of the last flag among the tokens.
pub open spec fn last_flag(tokens: Seq<Seq<char>>) -> Option<Seq<char>>
    decreases tokens.len(),
{
    if tokens.len() == 0 {
        None
    } else if starts(tokens.last(), "--"@) {
        Some(flag_name(tokens.last()))
    } else {
        last_flag(tokens.drop_last())
    }
}

/// The group that a value belongs to: the one of the flag that it follows.
pub open spec fn owner(groups: Seq<Group>, earlier: Seq<Seq<char>>) -> Option<int> {
    match last_flag(earlier) {
        None => None,
        Some(name) => named(groups, name),
    }
}

/// The groups of the earlier tokens, once one more has been taken in.
pub open spec fn with_token(
    groups: Seq<Group>,
    earlier: Seq<Seq<char>>,
    token: Seq<char>,
    path: Seq<char>,
) -> Result<Seq<Group>, Seq<char>> {
    match named(groups, "--"@) {
        Some(i) => if token == "--"@ {
            Err(second_sentinel_text(path))
        } else {
            Ok(extended(groups, i, token))
        },
        None => if token == "--"@ {
            Ok(groups.push(Group { name: "--"@, tokens: seq![token] }))
        } else if starts(token, "--"@) {
            match named(groups, flag_name(token)) {
                Some(i) => Ok(extended(groups, i, token)),
                None => Ok(groups.push(Group { name: flag_name(token), tokens: seq![token] })),
            }
        } else {
            match owner(groups, earlier) {
                None => Err(stray_token_text(token, path)),
                Some(i) => Ok(extended(groups, i, token)),
            }
        },
    }
}

/// The groups of an array of tokens, or why it is malformed.
pub open spec fn segmented(tokens: Seq<Seq<char>>, path: Seq<char>) -> Result<
    Seq<Group>,
    Seq<char>,
>
    decreases tokens.len(),
{
    if tokens.len() == 0 {
        Ok(Seq::empty())
    } else {
        match segmented(tokens.drop_last(), path) {
            Err(text) => Err(text),
            Ok(groups) => with_token(
                groups,
                tokens.drop_last(),
                tokens[tokens.len() - 1],
                path,
            ),
        }
    }
}

/// Whether a result over groups is the expected one.
pub open spec fn segments(
    r: Result<Vec<ExtraArgsGroup>, String>,
    expected: Result<Seq<Group>, Seq<char>>,
) -> bool {
    match r {
        Ok(groups) => expected == Ok::<Seq<Group>, Seq<char>>(groups_of(groups@)),
        Err(text) => expected == Err::<Seq<Group>, Seq<char>>(text@),
    }
}

fn find_group(groups: &Vec<ExtraArgsGroup>, name: &str) -> (r: Option<usize>)
    ensures
        match r {
            Some(i) => i < groups@.len() && named(groups_of(groups@), name@) == Some(i as int),
            None => named(groups_of(groups@), name@) is None,
        },
{
    let ghost all = groups_of(groups@);
    let ghost p = name_is(all, name@);
    proof {
        lemma_first_index(all.len(), p);
    }
    let mut i: usize = 0;
    while i < groups.len()
        invariant
            i <= groups@.len(),
            all == groups_of(groups@),
            p == name_is(all, name@),
            forall|j: int| 0 <= j < i ==> !(#[trigger] p(j)),
        decreases groups@.len() - i,
    {
        if same(groups[i].name.as_str(), name) {
            proof {
                assert(p(i as int));
                lemma_first_index_is(all.len(), p, i as int);
            }
            return Some(i);
        }
        assert(!p(i as int));
        i += 1;
    }
    None
}

fn extend_group(groups: Vec<ExtraArgsGroup>, i: usize, token: &str) -> (r: Vec<ExtraArgsGroup>)
    requires
        i < groups@.len(),
    ensures
        groups_of(r@) == extended(groups_of(groups@), i as int, token@),
{
    let ghost before = groups@;
    let mut out = groups;
    let mut group = out.remove(i);
    let ghost kept = group.tokens@;
    group.tokens.push(token.to_owned());
    proof {
        assert(texts(group.tokens@) =~= texts(kept).push(token@));
        assert(group@ == Group { name: before[i as int]@.name, tokens: texts(kept).push(token@) });
    }
    let ghost added = group@;
    out.insert(i, group);
    proof {
        assert(groups_of(out@) =~= groups_of(before).update(i as int, added));
    }
    out
}

fn open_group(groups: Vec<ExtraArgsGroup>, name: String, token: &str) -> (r: Vec<ExtraArgsGroup>)
    ensures
        groups_of(r@) == groups_of(groups@).push(Group { name: name@, tokens: seq![token@] }),
{
    let ghost before = groups@;
    let ghost n = name@;
    let mut out = groups;
    let mut tokens: Vec<String> = Vec::new();
    tokens.push(token.to_owned());
    assert(texts(tokens@) =~= seq![token@]);
    out.push(ExtraArgsGroup { name, tokens });
    assert(groups_of(out@) =~= groups_of(before).push(Group { name: n, tokens: seq![token@] }));
    out
}

/// Segments one extra_args array into flag groups. A `--`-prefixed token opens
/// a group named by the flag text before any `=`; repeated names coalesce into
/// the first group's position so a repeatable flag forms one logical group per
/// layer, and a value belongs to the group of the flag that it follows. A bare
/// `--` and every token after it form the single verbatim passthrough block: no
/// named group may open behind it, and a second bare `--` is malformed.
pub fn segment_extra_args(tokens: &[String], path: &str) -> (r: Result<Vec<ExtraArgsGroup>, String>)
    ensures
        segments(r, segmented(texts(tokens@), path@)),
{
    let ghost all = texts(tokens@);
    let mut groups: Vec<ExtraArgsGroup> = Vec::new();
    let mut latest: Option<String> = None;
    let mut i: usize = 0;
    assert(all.take(0) =~= Seq::<Seq<char>>::empty());
    assert(groups_of(groups@) =~= Seq::<Group>::empty());
    while i < tokens.len()
        invariant
            i <= tokens@.len(),
            all == texts(tokens@),
            text_of(latest) == last_flag(all.take(i as int)),
            segmented(all.take(i as int), path@) == Ok::<Seq<Group>, Seq<char>>(groups_of(groups@)),
        decreases tokens@.len() - i,
    {
        let token = tokens[i].as_str();
        let ghost before = groups_of(groups@);
        proof {
            assert(all.take(i + 1).drop_last() =~= all.take(i as int));
            assert(all.take(i + 1)[i as int] == token@);
            assert(segmented(all.take(i + 1), path@) == with_token(
                before,
                all.take(i as int),
                token@,
                path@,
            ));
        }
        match find_group(&groups, "--") {
            Some(at) => {
                if same(token, "--") {
                    proof {
                        lemma_segmented_fails(all, path@, i + 1);
                    }
                    return Err(
                        cat3(
                            "extra_args at ",
                            path,
                            " declares a second bare `--`; one array carries a single verbatim passthrough block",
                        ),
                    );
                }
                groups = extend_group(groups, at, token);
            },
            None => {
                if same(token, "--") {
                    groups = open_group(groups, "--".to_owned(), token);
                } else if starts_with(token, "--") {
                    let name = flag(token);
                    match find_group(&groups, name.as_str()) {
                        Some(at) => {
                            groups = extend_group(groups, at, token);
                        },
                        None => {
                            groups = open_group(groups, name, token);
                        },
                    }
                } else {
                    let owner: Option<usize> = match &latest {
                        None => None,
                        Some(name) => find_group(&groups, name.as_str()),
                    };
                    match owner {
                        None => {
                            proof {
                                lemma_segmented_fails(all, path@, i + 1);
                            }
                            return Err(
                                cat5(
                                    "extra_args value token ",
                                    debug(token).as_str(),
                                    " at ",
                                    path,
                                    " precedes any flag",
                                ),
                            );
                        },
                        Some(at) => {
                            groups = extend_group(groups, at, token);
                        },
                    }
                }
            },
        }
        if starts_with(token, "--") {
            latest = Some(flag(token));
        }
        i += 1;
    }
    assert(all.take(tokens@.len() as int) =~= all);
    Ok(groups)
}

fn flag(token: &str) -> (r: String)
    ensures
        r@ == flag_name(token@),
{
    proof {
        lemma_position(token@, '=');
    }
    match find_char(token, '=') {
        Some(at) => token.substring_char(0, at).to_owned(),
        None => {
            assert(token@.take(token@.len() as int) =~= token@);
            token.to_owned()
        },
    }
}

/// A malformed prefix makes the whole malformed in the same way.
proof fn lemma_segmented_fails(tokens: Seq<Seq<char>>, path: Seq<char>, i: int)
    requires
        0 <= i <= tokens.len(),
        segmented(tokens.take(i), path) is Err,
    ensures
        segmented(tokens, path) == segmented(tokens.take(i), path),
    decreases tokens.len(),
{
    if i == tokens.len() {
        assert(tokens.take(i) =~= tokens);
    } else {
        assert(tokens.drop_last().take(i) =~= tokens.take(i));
        lemma_segmented_fails(tokens.drop_last(), path, i);
    }
}

/// Checks that every value token of an extra_args array follows a flag and that
/// the array carries at most one verbatim `--` block.
pub fn validate_extra_args_segmentation(tokens: &[String], path: &str) -> (r: Result<(), String>)
    ensures
        match r {
            Ok(_) => segmented(texts(tokens@), path@) is Ok,
            Err(text) => segmented(texts(tokens@), path@) == Err::<Seq<Group>, Seq<char>>(text@),
        },
{
    match segment_extra_args(tokens, path) {
        Ok(_) => Ok(()),
        Err(text) => Err(text),
    }
}

// ---------------------------------------------------------------------------
// Merging extra arguments

/// The groups with the one of the same name replaced, or with the new one at the
/// end.
pub open spec fn with_group(groups: Seq<Group>, group: Group) -> Seq<Group> {
    match named(groups, group.name) {
        Some(i) => groups.update(i, group),
        None => groups.push(group),
    }
}

/// The base layer's groups with the patch layer's merged in.
pub open spec fn merged_groups(base: Seq<Group>, patch: Seq<Group>) -> Seq<Group>
    decreases patch.len(),
{
    if patch.len() == 0 {
        base
    } else {
        with_group(merged_groups(base, patch.drop_last()), patch[patch.len() - 1])
    }
}

/// The tokens of the groups, in order.
pub open spec fn flattened(groups: Seq<Group>) -> Seq<Seq<char>>
    decreases groups.len(),
{
    if groups.len() == 0 {
        Seq::empty()
    } else {
        flattened(groups.drop_last()) + groups[groups.len() - 1].tokens
    }
}

/// The text that a value holds.
pub open spec fn text_in(item: Tree) -> Seq<char> {
    match item {
        Tree::Text(text) => text,
        _ => Seq::empty(),
    }
}

/// The tokens of an extra_args value, or why it is malformed.
pub open spec fn tokens_in(value: Tree, path: Seq<char>) -> Result<Seq<Seq<char>>, Seq<char>> {
    match value {
        Tree::Array(items) => if forall|i: int| 0 <= i < items.len() ==> (#[trigger] items[i]) is Text {
            Ok(Seq::new(items.len(), |i: int| text_in(items[i])))
        } else {
            Err("extra_args entries at "@ + path + " must be strings"@)
        },
        _ => Err("extra_args at "@ + path + " must be an array"@),
    }
}

/// An array of texts.
pub open spec fn array_of(tokens: Seq<Seq<char>>) -> Tree {
    Tree::Array(Seq::new(tokens.len(), |i: int| Tree::Text(tokens[i])))
}

/// What two extra_args values compose to, or why they do not.
pub open spec fn merged_extra_args(base: Tree, patch: Tree, path: Seq<char>) -> Result<
    Tree,
    Seq<char>,
> {
    match tokens_in(base, path) {
        Err(text) => Err(text),
        Ok(base_tokens) => match tokens_in(patch, path) {
            Err(text) => Err(text),
            Ok(patch_tokens) => match segmented(base_tokens, path) {
                Err(text) => Err(text),
                Ok(groups) => match segmented(patch_tokens, path) {
                    Err(text) => Err(text),
                    Ok(more) => Ok(array_of(flattened(merged_groups(groups, more)))),
                },
            },
        },
    }
}

/// Whether a result over a value is the expected one.
pub open spec fn yields(r: Result<TomlValue, String>, expected: Result<Tree, Seq<char>>) -> bool {
    match r {
        Ok(value) => expected == Ok::<Tree, Seq<char>>(value@),
        Err(text) => expected == Err::<Tree, Seq<char>>(text@),
    }
}

/// The tokens of an extra_args value.
pub fn extra_args_tokens(value: &TomlValue, path: &str) -> (r: Result<Vec<String>, String>)
    ensures
        match r {
            Ok(tokens) => tokens_in(value@, path@) == Ok::<Seq<Seq<char>>, Seq<char>>(
                texts(tokens@),
            ),
            Err(text) => tokens_in(value@, path@) == Err::<Seq<Seq<char>>, Seq<char>>(text@),
        },
{
    match value {
        TomlValue::Array(items) => {
            let ghost trees = items_of(items@);
            proof {
                lemma_items(items@);
            }
            let mut tokens: Vec<String> = Vec::new();
            let mut i: usize = 0;
            while i < items.len()
                invariant
                    i <= items@.len(),
                    trees == items_of(items@),
                    value@ == Tree::Array(trees),
                    trees.len() == items@.len(),
                    forall|j: int|
                        0 <= j < items@.len() ==> (#[trigger] trees[j]) == tree_of(items@[j]),
                    tokens@.len() == i,
                    forall|j: int|
                        0 <= j < i ==> (#[trigger] trees[j]) is Text && text_in(trees[j])
                            == tokens@[j]@,
                decreases items@.len() - i,
            {
                assert(trees[i as int] == tree_of(items@[i as int]));
                match &items[i] {
                    TomlValue::Text(token) => {
                        tokens.push(token.clone());
                    },
                    _ => {
                        assert(!(trees[i as int] is Text));
                        return Err(cat3("extra_args entries at ", path, " must be strings"));
                    },
                }
                i += 1;
            }
            assert(texts(tokens@) =~= Seq::new(trees.len(), |i: int| text_in(trees[i])));
            Ok(tokens)
        },
        _ => Err(cat3("extra_args at ", path, " must be an array")),
    }
}

fn put_group(groups: Vec<ExtraArgsGroup>, group: ExtraArgsGroup) -> (r: Vec<ExtraArgsGroup>)
    ensures
        groups_of(r@) == with_group(groups_of(groups@), group@),
{
    let ghost before = groups@;
    let ghost added = group@;
    let mut out = groups;
    match find_group(&out, group.name.as_str()) {
        Some(i) => {
            out.set(i, group);
            assert(groups_of(out@) =~= groups_of(before).update(i as int, added));
        },
        None => {
            out.push(group);
            assert(groups_of(out@) =~= groups_of(before).push(added));
        },
    }
    out
}

fn copy_group(group: &ExtraArgsGroup) -> (r: ExtraArgsGroup)
    ensures
        r@ == group@,
{
    let tokens = copy_list(group.tokens.as_slice());
    assert(texts(tokens@) =~= texts(group.tokens@));
    ExtraArgsGroup { name: group.name.clone(), tokens }
}

fn flatten(groups: &Vec<ExtraArgsGroup>) -> (r: Vec<TomlValue>)
    ensures
        Tree::Array(items_of(r@)) == array_of(flattened(groups_of(groups@))),
{
    let ghost all = groups_of(groups@);
    let mut out: Vec<TomlValue> = Vec::new();
    let ghost mut flat: Seq<Seq<char>> = Seq::empty();
    let mut i: usize = 0;
    assert(all.take(0) =~= Seq::<Group>::empty());
    while i < groups.len()
        invariant
            i <= groups@.len(),
            all == groups_of(groups@),
            flat == flattened(all.take(i as int)),
            out@.len() == flat.len(),
            forall|j: int|
                0 <= j < out@.len() ==> tree_of(#[trigger] out@[j]) == Tree::Text(flat[j]),
        decreases groups@.len() - i,
    {
        let tokens = &groups[i].tokens;
        let ghost start = flat;
        let mut k: usize = 0;
        assert(texts(tokens@).take(0) =~= Seq::<Seq<char>>::empty());
        assert(start + Seq::<Seq<char>>::empty() =~= start);
        while k < tokens.len()
            invariant
                k <= tokens@.len(),
                flat == start + texts(tokens@).take(k as int),
                out@.len() == flat.len(),
                forall|j: int|
                    0 <= j < out@.len() ==> tree_of(#[trigger] out@[j]) == Tree::Text(flat[j]),
            decreases tokens@.len() - k,
        {
            let ghost before = flat;
            out.push(TomlValue::Text(tokens[k].clone()));
            proof {
                flat = flat.push(tokens@[k as int]@);
                assert(texts(tokens@).take(k + 1) =~= texts(tokens@).take(k as int).push(
                    tokens@[k as int]@,
                ));
                assert(flat =~= start + texts(tokens@).take(k + 1));
            }
            k += 1;
        }
        proof {
            assert(texts(tokens@).take(tokens@.len() as int) =~= all[i as int].tokens);
            assert(all.take(i + 1).drop_last() =~= all.take(i as int));
            assert(all.take(i + 1)[i as int] == all[i as int]);
        }
        i += 1;
    }
    proof {
        assert(all.take(groups@.len() as int) =~= all);
        lemma_items(out@);
        assert(items_of(out@) =~= Seq::new(flat.len(), |i: int| Tree::Text(flat[i])));
    }
    out
}

/// Merges the patch layer's groups into the base: same-named groups replace in
/// place, patch-only groups append in order, and groups absent from the patch
/// are inherited unchanged.
pub fn merge_extra_args(base: &TomlValue, patch: &TomlValue, path: &str) -> (r: Result<
    TomlValue,
    String,
>)
    ensures
        yields(r, merged_extra_args(base@, patch@, path@)),
{
    let base_tokens = match extra_args_tokens(base, path) {
        Ok(tokens) => tokens,
        Err(text) => return Err(text),
    };
    let patch_tokens = match extra_args_tokens(patch, path) {
        Ok(tokens) => tokens,
        Err(text) => return Err(text),
    };
    let mut groups = match segment_extra_args(base_tokens.as_slice(), path) {
        Ok(groups) => groups,
        Err(text) => return Err(text),
    };
    let more = match segment_extra_args(patch_tokens.as_slice(), path) {
        Ok(groups) => groups,
        Err(text) => return Err(text),
    };
    let ghost start = groups_of(groups@);
    let ghost all = groups_of(more@);
    let mut i: usize = 0;
    assert(all.take(0) =~= Seq::<Group>::empty());
    while i < more.len()
        invariant
            i <= more@.len(),
            all == groups_of(more@),
            groups_of(groups@) == merged_groups(start, all.take(i as int)),
        decreases more@.len() - i,
    {
        proof {
            assert(all.take(i + 1).drop_last() =~= all.take(i as int));
            assert(all.take(i + 1)[i as int] == more@[i as int]@);
        }
        groups = put_group(groups, copy_group(&more[i]));
        i += 1;
    }
    assert(all.take(more@.len() as int) =~= all);
    Ok(TomlValue::Array(flatten(&groups)))
}

// ---------------------------------------------------------------------------
// The exact merge

/// The path of an entry.
pub open spec fn entry_path(parent: Seq<char>, key: Seq<char>) -> Seq<char> {
    if parent.len() == 0 {
        key
    } else {
        parent + "."@ + key
    }
}

/// A patch cannot descend into a value that is no table.
pub open spec fn traversal_text(path: Seq<char>) -> Seq<char> {
    "override traverses non-table value at "@ + path
}

/// The value that takes the place of an entry that no table is merged into, or
/// why none does. Arrays of extra arguments directly under `settings` compose by
/// flag group; every other value replaces what was there.
pub open spec fn placed(
    existing: Option<Tree>,
    key: Seq<char>,
    value: Tree,
    path: Seq<char>,
    in_settings: bool,
) -> Result<Tree, Seq<char>> {
    if existing is Some && !(existing->0 is Table) && value is Table {
        Err(traversal_text(path))
    } else if key == "extra_args"@ && in_settings && value is Array {
        if existing is Some && existing->0 is Array {
            merged_extra_args(existing->0, value, path)
        } else {
            match tokens_in(value, path) {
                Err(text) => Err(text),
                Ok(tokens) => match segmented(tokens, path) {
                    Err(text) => Err(text),
                    Ok(_) => Ok(value),
                },
            }
        }
    } else {
        Ok(value)
    }
}

/// What a value and a patch compose to, or why they do not.
pub open spec fn merged(current: Tree, patch: Tree, parent: Seq<char>, in_settings: bool) -> Result<
    Tree,
    Seq<char>,
>
    decreases patch,
{
    match (current, patch) {
        (Tree::Table(entries), Tree::Table(changes)) => match merged_entries(
            entries,
            changes,
            parent,
            in_settings,
        ) {
            Ok(out) => Ok(Tree::Table(out)),
            Err(text) => Err(text),
        },
        _ => Err(traversal_text(parent)),
    }
}

/// What the entries of two tables compose to.
pub open spec fn merged_entries(
    current: Seq<(Seq<char>, Tree)>,
    patch: Seq<(Seq<char>, Tree)>,
    parent: Seq<char>,
    in_settings: bool,
) -> Result<Seq<(Seq<char>, Tree)>, Seq<char>>
    decreases patch,
{
    if patch.len() == 0 {
        Ok(current)
    } else {
        match merged_entries(current, patch.drop_last(), parent, in_settings) {
            Err(text) => Err(text),
            Ok(before) => {
                let key = patch[patch.len() - 1].0;
                let value = patch[patch.len() - 1].1;
                let existing = entry_at(before, key);
                let path = entry_path(parent, key);
                let outcome = if existing is Some && existing->0 is Table && value is Table {
                    merged(existing->0, value, path, key == "settings"@)
                } else {
                    placed(existing, key, value, path, in_settings)
                };
                match outcome {
                    Ok(found) => Ok(set_entry(before, key, found)),
                    Err(text) => Err(text),
                }
            },
        }
    }
}

fn is_table(value: &TomlValue) -> (r: bool)
    ensures
        r == (value@ is Table),
{
    match value {
        TomlValue::Table(_) => true,
        _ => false,
    }
}

fn is_array(value: &TomlValue) -> (r: bool)
    ensures
        r == (value@ is Array),
{
    match value {
        TomlValue::Array(_) => true,
        _ => false,
    }
}

/// What the optional value holds.
pub open spec fn optional_tree(value: Option<&TomlValue>) -> Option<Tree> {
    match value {
        Some(found) => Some(found@),
        None => None,
    }
}

fn place(
    existing: Option<&TomlValue>,
    key: &str,
    value: &TomlValue,
    path: &str,
    in_settings: bool,
) -> (r: Result<TomlValue, String>)
    ensures
        yields(r, placed(optional_tree(existing), key@, value@, path@, in_settings)),
{
    if let Some(found) = existing {
        if !is_table(found) && is_table(value) {
            return Err(cat2("override traverses non-table value at ", path));
        }
    }
    if same(key, "extra_args") && in_settings && is_array(value) {
        if let Some(found) = existing {
            if is_array(found) {
                return merge_extra_args(found, value, path);
            }
        }
        match extra_args_tokens(value, path) {
            Err(text) => Err(text),
            Ok(tokens) => match segment_extra_args(tokens.as_slice(), path) {
                Err(text) => Err(text),
                Ok(_) => Ok(copy_value(value)),
            },
        }
    } else {
        Ok(copy_value(value))
    }
}

/// Composes a definition with a patch: tables merge key by key, arrays of extra
/// arguments directly under `settings` merge by flag group, and every other
/// value is replaced.
pub fn merge_exact(current: TomlValue, patch: &TomlValue, parent: &str, in_settings: bool) -> (r:
    Result<TomlValue, String>)
    ensures
        yields(r, merged(current@, patch@, parent@, in_settings)),
    decreases *patch,
{
    match (current, patch) {
        (TomlValue::Table(entries), TomlValue::Table(changes)) => {
            assert(changes@.take(changes@.len() as int) =~= changes@);
            match merge_entries(entries, changes, changes.len(), parent, in_settings) {
                Ok(out) => Ok(TomlValue::Table(out)),
                Err(text) => Err(text),
            }
        },
        _ => Err(cat2("override traverses non-table value at ", parent)),
    }
}

fn merge_entries(
    current: Vec<(String, TomlValue)>,
    patch: &Vec<(String, TomlValue)>,
    n: usize,
    parent: &str,
    in_settings: bool,
) -> (r: Result<Vec<(String, TomlValue)>, String>)
    requires
        n <= patch@.len(),
    ensures
        match r {
            Ok(out) => merged_entries(
                entries_of(current@),
                entries_of(patch@.take(n as int)),
                parent@,
                in_settings,
            ) == Ok::<Seq<(Seq<char>, Tree)>, Seq<char>>(entries_of(out@)),
            Err(text) => merged_entries(
                entries_of(current@),
                entries_of(patch@.take(n as int)),
                parent@,
                in_settings,
            ) == Err::<Seq<(Seq<char>, Tree)>, Seq<char>>(text@),
        },
    decreases *patch, n,
{
    if n == 0 {
        assert(patch@.take(0) =~= Seq::<(String, TomlValue)>::empty());
        return Ok(current);
    }
    let ghost changes = entries_of(patch@.take(n as int));
    proof {
        assert(patch@.take(n as int).drop_last() =~= patch@.take(n - 1));
        lemma_entries(patch@.take(n as int));
        lemma_entries(patch@.take(n - 1));
        assert(changes.drop_last() =~= entries_of(patch@.take(n - 1)));
    }
    let mut before = match merge_entries(current, patch, n - 1, parent, in_settings) {
        Ok(out) => out,
        Err(text) => return Err(text),
    };
    let key = patch[n - 1].0.as_str();
    let value = &patch[n - 1].1;
    let ghost held = entries_of(before@);
    proof {
        assert(changes[n - 1] == (key@, value@));
        lemma_entries(before@);
        lemma_entry_index(held, key@);
    }
    let path = if parent.is_empty() {
        key.to_owned()
    } else {
        cat3(parent, ".", key)
    };
    match find_entry(before.as_slice(), key) {
        Some(i) => {
            let (_, existing) = &before[i];
            assert(existing@ == held[i as int].1);
            let outcome = if is_table(existing) && is_table(value) {
                merge_exact(copy_value(existing), value, path.as_str(), same(key, "settings"))
            } else {
                place(Some(existing), key, value, path.as_str(), in_settings)
            };
            match outcome {
                Ok(found) => Ok(put_entry(before, key, found)),
                Err(text) => Err(text),
            }
        },
        None => match place(None, key, value, path.as_str(), in_settings) {
            Ok(found) => Ok(put_entry(before, key, found)),
            Err(text) => Err(text),
        },
    }
}

/// Composes a definition with a patch, from the root of the definition.
pub fn apply_toml_patch(definition: TomlValue, patch: &TomlValue) -> (r: Result<TomlValue, String>)
    ensures
        yields(r, merged(definition@, patch@, ""@, false)),
{
    merge_exact(definition, patch, "", false)
}

/// Composes two framework `settings` maps directly: the patch table's keys are
/// setting names, so the per-flag merge applies at the top level.
pub fn apply_settings_patch(settings: TomlValue, patch: &TomlValue) -> (r: Result<
    TomlValue,
    String,
>)
    ensures
        yields(r, merged(settings@, patch@, "settings"@, true)),
{
    merge_exact(settings, patch, "settings", true)
}

// ---------------------------------------------------------------------------
// Overrides

/// One ordered `--set PATH=<TOML-value>` declaration from an invocation. The
/// stream of an invocation is parsed once; each product domain then selects the
/// declarations addressed to one definition.
pub struct InvocationOverride {
    pub index: usize,
    pub raw: String,
    pub path: String,
    pub raw_value: String,
}

impl Clone for InvocationOverride {
    fn clone(&self) -> (r: Self)
        ensures
            r == *self,
    {
        InvocationOverride {
            index: self.index,
            raw: self.raw.clone(),
            path: self.path.clone(),
            raw_value: self.raw_value.clone(),
        }
    }
}

/// What an override declares.
pub open spec fn declares(found: InvocationOverride, index: int, raw: Seq<char>) -> bool {
    &&& found.index == index
    &&& found.raw@ == raw
    &&& found.path@ == raw.take(position(raw, '='))
    &&& found.raw_value@ == raw.skip(position(raw, '=') + 1)
}

/// Which declarations have no `=`.
pub open spec fn lacks_value(overrides: Seq<String>) -> spec_fn(int) -> bool {
    |i: int| !overrides[i]@.contains('=')
}

/// The refusal of an override.
pub open spec fn refuses_override<T>(
    r: Result<T, InferlabError>,
    raw: Seq<char>,
    text: Seq<char>,
) -> bool {
    r matches Err(InferlabError::InvalidOverride { value, message }) && value@ == raw && message@
        == text
}

/// The refusal of an override.
pub fn invalid_override(raw_override: &str, message: String) -> (r: InferlabError)
    ensures
        refuses_override(Err::<(), InferlabError>(r), raw_override@, message@),
{
    InferlabError::InvalidOverride { value: raw_override.to_owned(), message }
}

impl InvocationOverride {
    /// Parses the declarations of an invocation, in order: each splits at its
    /// first `=`.
    pub fn parse_all(overrides: &[String]) -> (r: Result<Vec<InvocationOverride>, InferlabError>)
        ensures
            match first_index(overrides@.len(), lacks_value(overrides@)) {
                Some(i) => refuses_override(r, overrides@[i]@, "expected PATH=<TOML-value>"@),
                None => r matches Ok(list) && list@.len() == overrides@.len() && forall|i: int|
                    0 <= i < list@.len() ==> declares(#[trigger] list@[i], i, overrides@[i]@),
            },
    {
        let ghost p = lacks_value(overrides@);
        proof {
            lemma_first_index(overrides@.len(), p);
        }
        let mut out: Vec<InvocationOverride> = Vec::new();
        let mut i: usize = 0;
        while i < overrides.len()
            invariant
                i <= overrides@.len(),
                p == lacks_value(overrides@),
                out@.len() == i,
                forall|j: int| 0 <= j < i ==> !(#[trigger] p(j)),
                forall|j: int|
                    0 <= j < i ==> declares(#[trigger] out@[j], j, overrides@[j]@),
            decreases overrides@.len() - i,
        {
            let raw = overrides[i].as_str();
            proof {
                lemma_position(raw@, '=');
            }
            match find_char(raw, '=') {
                None => {
                    proof {
                        assert(p(i as int));
                        lemma_first_index_is(overrides@.len(), p, i as int);
                    }
                    return Err(invalid_override(raw, "expected PATH=<TOML-value>".to_owned()));
                },
                Some(at) => {
                    assert(!p(i as int));
                    let n: usize = raw.unicode_len();
                    let path = raw.substring_char(0, at).to_owned();
                    let raw_value = raw.substring_char(at + 1, n).to_owned();
                    let found = InvocationOverride { index: i, raw: raw.to_owned(), path, raw_value };
                    proof {
                        assert(found.path@ =~= raw@.take(at as int));
                        assert(found.raw_value@ =~= raw@.skip(at + 1));
                    }
                    out.push(found);
                },
            }
            i += 1;
        }
        Ok(out)
    }

    /// The place of the declaration in the invocation.
    pub fn index(&self) -> (r: usize)
        ensures
            r == self.index,
    {
        self.index
    }

    /// The declaration as it was given.
    pub fn raw(&self) -> (r: &str)
        ensures
            r@ == self.raw@,
    {
        self.raw.as_str()
    }

    /// The path that the declaration addresses.
    pub fn path(&self) -> (r: &str)
        ensures
            r@ == self.path@,
    {
        self.path.as_str()
    }

    /// The declaration as one on the definition below the prefix, where it
    /// addresses that one.
    pub fn under(&self, prefix: &str) -> (r: Option<InvocationOverride>)
        ensures
            match after_prefix(self.path@, prefix@) {
                Some(rest) => r matches Some(found) && found.index == self.index && found.raw
                    == self.raw && found.raw_value == self.raw_value && found.path@ == rest,
                None => r is None,
            },
    {
        match strip_prefix(self.path.as_str(), prefix) {
            Some(path) => Some(
                InvocationOverride {
                    index: self.index,
                    raw: self.raw.clone(),
                    path: path.to_owned(),
                    raw_value: self.raw_value.clone(),
                },
            ),
            None => None,
        }
    }

    /// The declaration as an exact assignment.
    pub fn assignment(&self) -> (r: Result<ExactTomlOverride, InferlabError>)
        ensures
            assigns(
                r,
                self.raw@,
                assignment_of(
                    self.path@,
                    toml_parsed("value = "@ + self.raw_value@),
                    toml_parsed(self.path@ + " = 0"@),
                    toml_parsed(self.path@ + " = "@ + self.raw_value@),
                ),
            ),
    {
        ExactTomlOverride::parse(self.path.as_str(), self.raw_value.as_str(), self.raw.as_str())
    }
}

/// One invocation override parsed as an exact key-path assignment. Callers
/// select the definition that the assignment may affect.
pub struct ExactTomlOverride {
    pub root_key: String,
    pub patch: TomlValue,
}

/// The entries of a document.
pub open spec fn document(parsed: Tree) -> Seq<(Seq<char>, Tree)> {
    match parsed {
        Tree::Table(entries) => entries,
        _ => Seq::empty(),
    }
}

/// What the parsed documents of an override make of it: the root key and the
/// patch, or the text of the refusal. The first document holds the value alone,
/// so that no second assignment can enter through it; the second holds the path
/// alone; the third is the assignment.
pub open spec fn assignment_of(
    path: Seq<char>,
    value: Result<Tree, Seq<char>>,
    key: Result<Tree, Seq<char>>,
    whole: Result<Tree, Seq<char>>,
) -> Result<(Seq<char>, Tree), Seq<char>> {
    if path.len() == 0 || path.contains('\n') || path.contains('\r') {
        Err("setting path must be one TOML key path"@)
    } else {
        match value {
            Err(text) => Err("invalid TOML value: "@ + text),
            Ok(found) => if document(found).len() != 1 || document(found)[0].0 != "value"@ {
                Err("override must contain exactly one TOML value"@)
            } else {
                match key {
                    Err(text) => Err("invalid TOML key path: "@ + text),
                    Ok(keys) => if document(keys).len() == 0 {
                        Err("setting path must not be empty"@)
                    } else {
                        match whole {
                            Err(text) => Err("invalid TOML override assignment: "@ + text),
                            Ok(patch) => Ok((document(keys)[0].0, Tree::Table(document(patch)))),
                        }
                    },
                }
            },
        }
    }
}

/// Whether a parsed override is the expected one.
pub open spec fn assigns(
    r: Result<ExactTomlOverride, InferlabError>,
    raw: Seq<char>,
    expected: Result<(Seq<char>, Tree), Seq<char>>,
) -> bool {
    match expected {
        Ok(found) => r matches Ok(exact) && exact.root_key@ == found.0 && exact.patch@ == found.1,
        Err(text) => refuses_override(r, raw, text),
    }
}

/// What a document that was read holds.
pub open spec fn read_tree(read: Result<Vec<(String, TomlValue)>, String>) -> Result<
    Tree,
    Seq<char>,
> {
    match read {
        Ok(entries) => Ok(Tree::Table(entries_of(entries@))),
        Err(text) => Err(text@),
    }
}

impl ExactTomlOverride {
    /// The assignment that the documents of an override make.
    pub fn assemble(
        path: &str,
        raw_override: &str,
        value: Result<Vec<(String, TomlValue)>, String>,
        key: Result<Vec<(String, TomlValue)>, String>,
        whole: Result<Vec<(String, TomlValue)>, String>,
    ) -> (r: Result<ExactTomlOverride, InferlabError>)
        ensures
            assigns(
                r,
                raw_override@,
                assignment_of(path@, read_tree(value), read_tree(key), read_tree(whole)),
            ),
    {
        if path.is_empty() || contains_char(path, '\n') || contains_char(path, '\r') {
            return Err(
                invalid_override(raw_override, "setting path must be one TOML key path".to_owned()),
            );
        }
        let value_document = match value {
            Ok(entries) => entries,
            Err(text) => return Err(
                invalid_override(raw_override, cat2("invalid TOML value: ", text.as_str())),
            ),
        };
        proof {
            lemma_entries(value_document@);
        }
        if value_document.len() != 1 || !same(value_document[0].0.as_str(), "value") {
            return Err(
                invalid_override(
                    raw_override,
                    "override must contain exactly one TOML value".to_owned(),
                ),
            );
        }
        let path_document = match key {
            Ok(entries) => entries,
            Err(text) => return Err(
                invalid_override(raw_override, cat2("invalid TOML key path: ", text.as_str())),
            ),
        };
        proof {
            lemma_entries(path_document@);
        }
        if path_document.len() == 0 {
            return Err(invalid_override(raw_override, "setting path must not be empty".to_owned()));
        }
        match whole {
            Ok(entries) => Ok(
                ExactTomlOverride {
                    root_key: path_document[0].0.clone(),
                    patch: TomlValue::Table(entries),
                },
            ),
            Err(text) => Err(
                invalid_override(
                    raw_override,
                    cat2("invalid TOML override assignment: ", text.as_str()),
                ),
            ),
        }
    }

    /// Parses the assignment of a value to a path.
    pub fn parse(path: &str, raw_value: &str, raw_override: &str) -> (r: Result<
        ExactTomlOverride,
        InferlabError,
    >)
        ensures
            assigns(
                r,
                raw_override@,
                assignment_of(
                    path@,
                    toml_parsed("value = "@ + raw_value@),
                    toml_parsed(path@ + " = 0"@),
                    toml_parsed(path@ + " = "@ + raw_value@),
                ),
            ),
    {
        let value = read_document(cat2("value = ", raw_value).as_str());
        let key = read_document(cat2(path, " = 0").as_str());
        let whole = read_document(cat3(path, " = ", raw_value).as_str());
        Self::assemble(path, raw_override, value, key, whole)
    }

    /// The patch that the assignment makes.
    pub fn into_patch(self) -> (r: TomlValue)
        ensures
            r == self.patch,
    {
        self.patch
    }

    /// The first key of the path.
    pub fn root_key(&self) -> (r: &str)
        ensures
            r@ == self.root_key@,
    {
        self.root_key.as_str()
    }

    /// Composes a definition with the assignment.
    pub fn apply_to(self, definition: TomlValue, raw_override: &str) -> (r: Result<
        TomlValue,
        InferlabError,
    >)
        ensures
            match merged(definition@, self.patch@, ""@, false) {
                Ok(tree) => r matches Ok(value) && value@ == tree,
                Err(text) => refuses_override(r, raw_override@, text),
            },
    {
        match apply_toml_patch(definition, &self.patch) {
            Ok(value) => Ok(value),
            Err(text) => Err(invalid_override(raw_override, text)),
        }
    }
}

// ---------------------------------------------------------------------------
// Laws

/// Whether no two groups have the same name.
pub open spec fn distinct_names(groups: Seq<Group>) -> bool {
    forall|i: int, j: int|
        0 <= i < j < groups.len() ==> (#[trigger] groups[i]).name != (#[trigger] groups[j]).name
}

/// `named` finds the one group with the name.
proof fn lemma_named(groups: Seq<Group>, name: Seq<char>)
    ensures
        match named(groups, name) {
            Some(i) => 0 <= i < groups.len() && groups[i].name == name,
            None => forall|j: int| 0 <= j < groups.len() ==> (#[trigger] groups[j]).name != name,
        },
{
    let p = name_is(groups, name);
    lemma_first_index(groups.len(), p);
    if named(groups, name) is None {
        assert forall|j: int| 0 <= j < groups.len() implies (#[trigger] groups[j]).name != name by {
            assert(!p(j));
        }
    }
}

/// Among distinct names the group with a name is found where it stands.
proof fn lemma_named_at(groups: Seq<Group>, i: int)
    requires
        distinct_names(groups),
        0 <= i < groups.len(),
    ensures
        named(groups, groups[i].name) == Some(i),
{
    lemma_named(groups, groups[i].name);
    let found = named(groups, groups[i].name);
    assert(groups[i].name == groups[i].name);
    if found is Some && found->0 != i {
        if found->0 < i {
            assert(groups[found->0].name != groups[i].name);
        } else {
            assert(groups[i].name != groups[found->0].name);
        }
    }
}

/// Taking in a token or a group keeps the names distinct.
proof fn lemma_stays_distinct(groups: Seq<Group>, i: int, group: Group)
    requires
        distinct_names(groups),
        named(groups, group.name) == Some(i) || named(groups, group.name) is None,
        named(groups, group.name) is Some ==> 0 <= i < groups.len(),
    ensures
        named(groups, group.name) is Some ==> distinct_names(groups.update(i, group)),
        named(groups, group.name) is None ==> distinct_names(groups.push(group)),
{
    lemma_named(groups, group.name);
}

/// One array never opens two groups of one name: a repeated flag joins its first
/// group.
pub proof fn law_group_names_are_distinct(tokens: Seq<Seq<char>>, path: Seq<char>)
    requires
        segmented(tokens, path) is Ok,
    ensures
        distinct_names(segmented(tokens, path)->Ok_0),
    decreases tokens.len(),
{
    if tokens.len() > 0 {
        law_group_names_are_distinct(tokens.drop_last(), path);
        let groups = segmented(tokens.drop_last(), path)->Ok_0;
        let token = tokens[tokens.len() - 1];
        lemma_named(groups, "--"@);
        lemma_named(groups, flag_name(token));
        if last_flag(tokens.drop_last()) is Some {
            lemma_named(groups, last_flag(tokens.drop_last())->0);
        }
    }
}

/// Every flag has a group: a value that follows one belongs to the group of that
/// flag, so only a value before any flag is a stray one.
pub proof fn law_a_value_belongs_to_the_flag_before_it(tokens: Seq<Seq<char>>, path: Seq<char>)
    requires
        segmented(tokens, path) is Ok,
        last_flag(tokens) is Some,
    ensures
        ({
            let groups = segmented(tokens, path)->Ok_0;
            named(groups, "--"@) is Some || owner(groups, tokens) is Some
        }),
    decreases tokens.len(),
{
    let groups = segmented(tokens.drop_last(), path)->Ok_0;
    let out = segmented(tokens, path)->Ok_0;
    let token = tokens[tokens.len() - 1];
    lemma_named(groups, "--"@);
    lemma_named(out, "--"@);
    lemma_named(groups, flag_name(token));
    lemma_named(out, last_flag(tokens)->0);
    match named(groups, "--"@) {
        Some(k) => {
            assert(out[k].name == "--"@);
        },
        None => if token == "--"@ {
            assert(out[groups.len() as int].name == "--"@);
        } else if starts(token, "--"@) {
            match named(groups, flag_name(token)) {
                Some(k) => {
                    assert(out[k].name == flag_name(token));
                },
                None => {
                    assert(out[groups.len() as int].name == flag_name(token));
                },
            }
        } else {
            law_a_value_belongs_to_the_flag_before_it(tokens.drop_last(), path);
            let name = last_flag(tokens.drop_last())->0;
            lemma_named(groups, name);
            let k = named(groups, name)->0;
            assert(out[k].name == name);
        },
    }
}

/// Segmentation loses no token and makes none up.
pub proof fn law_segmentation_keeps_the_tokens(tokens: Seq<Seq<char>>, path: Seq<char>)
    requires
        segmented(tokens, path) is Ok,
    ensures
        flattened(segmented(tokens, path)->Ok_0).to_multiset() == tokens.to_multiset(),
    decreases tokens.len(),
{
    broadcast use vstd::seq_lib::group_to_multiset_ensures;

    if tokens.len() > 0 {
        law_segmentation_keeps_the_tokens(tokens.drop_last(), path);
        let groups = segmented(tokens.drop_last(), path)->Ok_0;
        let token = tokens[tokens.len() - 1];
        assert(tokens =~= tokens.drop_last().push(token));
        lemma_named(groups, "--"@);
        lemma_named(groups, flag_name(token));
        if last_flag(tokens.drop_last()) is Some {
            lemma_named(groups, last_flag(tokens.drop_last())->0);
        }
        let out = segmented(tokens, path)->Ok_0;
        if out.len() == groups.len() {
            let i = choose|i: int| 0 <= i < groups.len() && out == extended(groups, i, token);
            lemma_flattened_extended(groups, i, token);
        } else {
            let added = out[out.len() - 1];
            assert(out.drop_last() =~= groups);
            assert(flattened(out) =~= flattened(groups).push(token));
        }
    } else {
        assert(flattened(Seq::<Group>::empty()) =~= tokens);
    }
}

/// A token more in a group is a token more in all.
proof fn lemma_flattened_extended(groups: Seq<Group>, i: int, token: Seq<char>)
    requires
        0 <= i < groups.len(),
    ensures
        flattened(extended(groups, i, token)).to_multiset()
            == flattened(groups).to_multiset().insert(token),
    decreases groups.len(),
{
    broadcast use vstd::seq_lib::group_to_multiset_ensures;

    let out = extended(groups, i, token);
    let last = groups.len() - 1;
    if i == last {
        assert(out.drop_last() =~= groups.drop_last());
        assert(flattened(out) =~= flattened(groups).push(token));
    } else {
        assert(out.drop_last() =~= extended(groups.drop_last(), i, token));
        lemma_flattened_extended(groups.drop_last(), i, token);
        vstd::seq_lib::lemma_multiset_commutative(
            flattened(out.drop_last()),
            out[last].tokens,
        );
        vstd::seq_lib::lemma_multiset_commutative(
            flattened(groups.drop_last()),
            groups[last].tokens,
        );
        assert(flattened(out).to_multiset() =~= flattened(groups).to_multiset().insert(token));
    }
}

/// Merging replaces a named group in place, inherits the groups that the patch
/// does not name, and appends the groups that only the patch has.
pub proof fn law_merge_is_by_name(base: Seq<Group>, patch: Seq<Group>)
    requires
        distinct_names(base),
        distinct_names(patch),
    ensures
        ({
            let out = merged_groups(base, patch);
            &&& distinct_names(out)
            &&& out.len() >= base.len()
            &&& forall|i: int|
                0 <= i < base.len() ==> (#[trigger] out[i]) == match named(patch, base[i].name) {
                    Some(j) => patch[j],
                    None => base[i],
                }
            &&& forall|j: int|
                0 <= j < patch.len() ==> named(out, (#[trigger] patch[j]).name) is Some
                    && out[named(out, patch[j].name)->0] == patch[j]
            &&& forall|i: int|
                base.len() <= i < out.len() ==> named(base, (#[trigger] out[i]).name) is None
                    && named(patch, out[i].name) is Some
        }),
    decreases patch.len(),
{
    if patch.len() == 0 {
        assert forall|i: int| 0 <= i < base.len() implies named(
            patch,
            (#[trigger] base[i]).name,
        ) is None by {
            lemma_named(patch, base[i].name);
        }
    } else {
        let front = patch.drop_last();
        let group = patch[patch.len() - 1];
        assert forall|i: int, j: int| 0 <= i < j < front.len() implies (#[trigger] front[i]).name
            != (#[trigger] front[j]).name by {
            assert(patch[i].name != patch[j].name);
        }
        law_merge_is_by_name(base, front);
        let before = merged_groups(base, front);
        let out = merged_groups(base, patch);
        lemma_named(before, group.name);
        if named(before, group.name) is Some {
            lemma_stays_distinct(before, named(before, group.name)->0, group);
        } else {
            lemma_stays_distinct(before, 0, group);
        }
        lemma_named(front, group.name);
        assert(named(front, group.name) is None) by {
            if named(front, group.name) is Some {
                let j = named(front, group.name)->0;
                assert(patch[j].name != patch[patch.len() - 1].name);
            }
        }
        assert(patch[patch.len() - 1] == group);
        lemma_named_at(patch, patch.len() - 1);
        assert forall|j: int| 0 <= j < front.len() implies named(patch, (#[trigger] front[j]).name)
            == Some(j) && named(front, front[j].name) == Some(j) by {
            assert(front[j] == patch[j]);
            lemma_named_at(patch, j);
            lemma_named_at(front, j);
        }
        assert forall|i: int| 0 <= i < base.len() implies (#[trigger] out[i]) == match named(
            patch,
            base[i].name,
        ) {
            Some(j) => patch[j],
            None => base[i],
        } by {
            lemma_named(patch, base[i].name);
            lemma_named(front, base[i].name);
            assert(before[i].name == base[i].name);
            lemma_named_at(before, i);
            if base[i].name != group.name {
                if named(patch, base[i].name) is Some {
                    let j = named(patch, base[i].name)->0;
                    assert(front[j] == patch[j]);
                    assert(named(front, front[j].name) == Some(j));
                } else if named(front, base[i].name) is Some {
                    let j = named(front, base[i].name)->0;
                    assert(patch[j].name == base[i].name);
                }
            }
        }
        assert forall|j: int| 0 <= j < patch.len() implies named(
            out,
            (#[trigger] patch[j]).name,
        ) is Some && out[named(out, patch[j].name)->0] == patch[j] by {
            if j == patch.len() - 1 {
                match named(before, group.name) {
                    Some(i) => {
                        lemma_named_at(out, i);
                    },
                    None => {
                        assert(out[before.len() as int] == group);
                        lemma_named_at(out, before.len() as int);
                    },
                }
            } else {
                assert(front[j] == patch[j]);
                let i = named(before, front[j].name)->0;
                lemma_named(before, front[j].name);
                assert(before[i].name != group.name) by {
                    assert(patch[j].name != patch[patch.len() - 1].name);
                }
                assert(out[i] == before[i]);
                lemma_named_at(out, i);
            }
        }
        assert forall|i: int| base.len() <= i < out.len() implies named(
            base,
            (#[trigger] out[i]).name,
        ) is None && named(patch, out[i].name) is Some by {
            if i < before.len() {
                assert(before[i].name == out[i].name);
                assert(named(front, before[i].name) is Some);
                lemma_named(front, before[i].name);
                let j = named(front, before[i].name)->0;
                assert(named(patch, front[j].name) == Some(j));
            } else {
                lemma_named(base, group.name);
                if named(base, group.name) is Some {
                    let k = named(base, group.name)->0;
                    assert(before[k].name == base[k].name);
                }
            }
        }
    }
}

/// Applying one patch twice is applying it once.
pub proof fn law_merge_is_idempotent(base: Seq<Group>, patch: Seq<Group>)
    requires
        distinct_names(base),
        distinct_names(patch),
    ensures
        merged_groups(merged_groups(base, patch), patch) == merged_groups(base, patch),
{
    law_merge_is_by_name(base, patch);
    lemma_merge_of_present(merged_groups(base, patch), patch);
}

/// Merging groups that are there already changes nothing.
proof fn lemma_merge_of_present(groups: Seq<Group>, patch: Seq<Group>)
    requires
        forall|j: int|
            0 <= j < patch.len() ==> named(groups, (#[trigger] patch[j]).name) is Some
                && groups[named(groups, patch[j].name)->0] == patch[j],
    ensures
        merged_groups(groups, patch) == groups,
    decreases patch.len(),
{
    if patch.len() > 0 {
        let front = patch.drop_last();
        assert forall|j: int| 0 <= j < front.len() implies named(
            groups,
            (#[trigger] front[j]).name,
        ) is Some && groups[named(groups, front[j].name)->0] == front[j] by {
            assert(front[j] == patch[j]);
        }
        lemma_merge_of_present(groups, front);
        let group = patch[patch.len() - 1];
        lemma_named(groups, group.name);
        assert(groups.update(named(groups, group.name)->0, group) =~= groups);
    }
}

/// Setting an entry changes that entry and no other.
proof fn lemma_set_entry(entries: Seq<(Seq<char>, Tree)>, key: Seq<char>, value: Tree, other: Seq<char>)
    ensures
        entry_at(set_entry(entries, key, value), key) == Some(value),
        other != key ==> entry_at(set_entry(entries, key, value), other) == entry_at(
            entries,
            other,
        ),
{
    let out = set_entry(entries, key, value);
    let rank = entry_rank(entries, key);
    lemma_entry_index(entries, key);
    lemma_entry_index(entries, other);
    lemma_entry_index(out, key);
    lemma_entry_index(out, other);
    lemma_entry_rank(entries, key);
    let at = entry_index(entries, key);
    if at < entries.len() {
        assert(out[at] == (key, value));
        let k = entry_index(out, key);
        if k < at {
            assert(entries[k].0 == out[k].0);
        }
        if other != key {
            let a = entry_index(entries, other);
            let b = entry_index(out, other);
            if a < entries.len() {
                assert(out[a] == entries[a]);
            }
            if b < out.len() {
                assert(out[b] == entries[b]);
            }
        }
    } else {
        assert(out[rank] == (key, value));
        let k = entry_index(out, key);
        if k < rank {
            assert(entries[k].0 == out[k].0);
        }
        if other != key {
            let a = entry_index(entries, other);
            let b = entry_index(out, other);
            if a < entries.len() {
                if a < rank {
                    assert(out[a] == entries[a]);
                } else {
                    assert(out[a + 1] == entries[a]);
                }
            }
            if b < out.len() {
                if b < rank {
                    assert(out[b] == entries[b]);
                } else {
                    assert(out[b] == entries[b - 1]);
                }
            }
        }
    }
}

/// What a patch does not name stays as it was.
pub proof fn law_unnamed_keys_are_kept(
    current: Seq<(Seq<char>, Tree)>,
    patch: Seq<(Seq<char>, Tree)>,
    parent: Seq<char>,
    in_settings: bool,
    key: Seq<char>,
)
    requires
        merged_entries(current, patch, parent, in_settings) is Ok,
        forall|i: int| 0 <= i < patch.len() ==> (#[trigger] patch[i]).0 != key,
    ensures
        entry_at(merged_entries(current, patch, parent, in_settings)->Ok_0, key) == entry_at(
            current,
            key,
        ),
    decreases patch.len(),
{
    if patch.len() > 0 {
        let front = patch.drop_last();
        assert forall|i: int| 0 <= i < front.len() implies (#[trigger] front[i]).0 != key by {
            assert(front[i] == patch[i]);
        }
        law_unnamed_keys_are_kept(current, front, parent, in_settings, key);
        let before = merged_entries(current, front, parent, in_settings)->Ok_0;
        let after = merged_entries(current, patch, parent, in_settings)->Ok_0;
        let last = patch[patch.len() - 1].0;
        let found = entry_at(after, last);
        let value = choose|value: Tree| after == set_entry(before, last, value);
        lemma_set_entry(before, last, value, key);
    }
}

/// An assignment of a value that is no table is read back as it was assigned,
/// whatever stood there, unless it is a composed array of extra arguments.
pub proof fn law_assigned_value_is_read_back(
    current: Seq<(Seq<char>, Tree)>,
    key: Seq<char>,
    value: Tree,
    parent: Seq<char>,
    in_settings: bool,
)
    requires
        !(value is Table),
        !(key == "extra_args"@ && in_settings && value is Array),
    ensures
        merged_entries(current, seq![(key, value)], parent, in_settings) is Ok,
        entry_at(
            merged_entries(current, seq![(key, value)], parent, in_settings)->Ok_0,
            key,
        ) == Some(value),
{
    let patch = seq![(key, value)];
    assert(patch.drop_last() =~= Seq::<(Seq<char>, Tree)>::empty());
    assert(merged_entries(current, patch.drop_last(), parent, in_settings) == Ok::<
        Seq<(Seq<char>, Tree)>,
        Seq<char>,
    >(current));
    lemma_set_entry(current, key, value, key);
}

/// A patch that restates every flag of the base, in the base's order, is the
/// outcome itself.
pub proof fn law_full_restatement_is_the_outcome(base: Seq<Group>, patch: Seq<Group>)
    requires
        distinct_names(base),
        distinct_names(patch),
        base.len() == patch.len(),
        forall|i: int| 0 <= i < base.len() ==> (#[trigger] base[i]).name == patch[i].name,
    ensures
        merged_groups(base, patch) == patch,
{
    law_merge_is_by_name(base, patch);
    let out = merged_groups(base, patch);
    assert forall|i: int| 0 <= i < base.len() implies (#[trigger] out[i]) == patch[i] by {
        assert(base[i].name == patch[i].name);
        lemma_named_at(patch, i);
    }
    if out.len() > base.len() {
        let last = out.len() - 1;
        assert(named(patch, out[last].name) is Some);
        lemma_named(patch, out[last].name);
        let j = named(patch, out[last].name)->0;
        assert(base[j].name == patch[j].name);
        lemma_named(base, out[last].name);
    }
    assert(out =~= patch);
}

/// The flag of a token is what stands before its first `=`, and the whole token where it
/// has none.
pub proof fn law_flag_is_what_stands_before_its_value(flag: Seq<char>, value: Seq<char>)
    requires
        !flag.contains('='),
    ensures
        flag_name(flag) == flag,
        flag_name(flag.push('=') + value) == flag,
{
    let token = flag.push('=') + value;
    lemma_position(flag, '=');
    assert(flag.take(flag.len() as int) =~= flag);
    lemma_position(token, '=');
    assert(token[flag.len() as int] == '=');
    if position(token, '=') < flag.len() {
        assert(flag[position(token, '=')] == '=');
    }
    assert(token.take(flag.len() as int) =~= flag);
}

/// The flag that a value follows is the nearest one before it.
pub proof fn law_last_flag_is_the_nearest(tokens: Seq<Seq<char>>, i: int)
    requires
        0 <= i < tokens.len(),
        starts(tokens[i], "--"@),
        forall|j: int| i < j < tokens.len() ==> !starts(#[trigger] tokens[j], "--"@),
    ensures
        last_flag(tokens) == Some(flag_name(tokens[i])),
    decreases tokens.len(),
{
    if i < tokens.len() - 1 {
        assert(!starts(tokens[tokens.len() - 1], "--"@));
        law_last_flag_is_the_nearest(tokens.drop_last(), i);
    }
}

/// A token is put behind those of one group and leaves the others as they are: the group
/// of what follows a bare `--`, once there is one, else the group of the flag that the
/// token is, else that of the flag that it follows. The place of the group is given.
pub proof fn law_token_joins_the_group_of_its_flag(
    earlier: Seq<Seq<char>>,
    token: Seq<char>,
    path: Seq<char>,
) -> (at: int)
    requires
        segmented(earlier, path) is Ok,
        segmented(earlier.push(token), path) is Ok,
    ensures
        ({
            let before = segmented(earlier, path)->Ok_0;
            let after = segmented(earlier.push(token), path)->Ok_0;
            let verbatim = exists|i: int|
                0 <= i < before.len() && (#[trigger] before[i]).name == "--"@;
            &&& 0 <= at < after.len()
            &&& before.len() <= after.len() <= before.len() + 1
            &&& after[at].name == (if verbatim || token == "--"@ {
                "--"@
            } else if starts(token, "--"@) {
                flag_name(token)
            } else {
                last_flag(earlier)->0
            })
            &&& after[at].tokens == (if at < before.len() {
                before[at].tokens
            } else {
                Seq::empty()
            }).push(token)
            &&& forall|j: int|
                0 <= j < before.len() && j != at ==> (#[trigger] after[j]) == before[j]
            &&& after.len() > before.len() ==> at == before.len()
        }),
{
    let tokens = earlier.push(token);
    assert(tokens.drop_last() =~= earlier);
    let before = segmented(earlier, path)->Ok_0;
    lemma_named(before, "--"@);
    lemma_named(before, flag_name(token));
    if last_flag(earlier) is Some {
        lemma_named(before, last_flag(earlier)->0);
    }
    let new = before.len() as int;
    if named(before, "--"@) is Some {
        named(before, "--"@)->0
    } else if token == "--"@ {
        assert(Seq::<Seq<char>>::empty().push(token) =~= seq![token]);
        new
    } else if starts(token, "--"@) {
        match named(before, flag_name(token)) {
            Some(i) => i,
            None => {
                assert(Seq::<Seq<char>>::empty().push(token) =~= seq![token]);
                new
            },
        }
    } else {
        owner(before, earlier)->0
    }
}

/// A token is refused exactly where it is a second bare `--`, or a value that no flag
/// stands before.
pub proof fn law_only_stray_tokens_and_second_sentinels_are_refused(
    earlier: Seq<Seq<char>>,
    token: Seq<char>,
    path: Seq<char>,
)
    requires
        segmented(earlier, path) is Ok,
    ensures
        ({
            let before = segmented(earlier, path)->Ok_0;
            let verbatim = exists|i: int|
                0 <= i < before.len() && (#[trigger] before[i]).name == "--"@;
            segmented(earlier.push(token), path) is Err <==> (if verbatim {
                token == "--"@
            } else {
                !starts(token, "--"@) && last_flag(earlier) is None
            })
        }),
{
    let tokens = earlier.push(token);
    assert(tokens.drop_last() =~= earlier);
    let before = segmented(earlier, path)->Ok_0;
    lemma_named(before, "--"@);
    reveal_strlit("--");
    assert("--"@.take("--"@.len() as int) =~= "--"@);
    if last_flag(earlier) is Some {
        law_a_value_belongs_to_the_flag_before_it(earlier, path);
    }
}

/// The extra arguments of two layers compose by their flags: the groups of the patch are
/// merged into those of the base.
pub proof fn law_extra_arguments_compose_by_flag(
    base: Seq<Seq<char>>,
    patch: Seq<Seq<char>>,
    path: Seq<char>,
)
    requires
        segmented(base, path) is Ok,
        segmented(patch, path) is Ok,
    ensures
        merged_extra_args(array_of(base), array_of(patch), path) == Ok::<Tree, Seq<char>>(
            array_of(
                flattened(
                    merged_groups(segmented(base, path)->Ok_0, segmented(patch, path)->Ok_0),
                ),
            ),
        ),
{
    lemma_tokens_of_array(base, path);
    lemma_tokens_of_array(patch, path);
}

/// The tokens of an array of texts are those texts.
proof fn lemma_tokens_of_array(tokens: Seq<Seq<char>>, path: Seq<char>)
    ensures
        tokens_in(array_of(tokens), path) == Ok::<Seq<Seq<char>>, Seq<char>>(tokens),
{
    let items = Seq::new(tokens.len(), |i: int| Tree::Text(tokens[i]));
    assert(array_of(tokens) == Tree::Array(items));
    assert(Seq::new(items.len(), |i: int| text_in(items[i])) =~= tokens);
}

/// A patch of several keys, each named once, assigns each its value.
pub proof fn law_each_assigned_value_is_read_back(
    current: Seq<(Seq<char>, Tree)>,
    patch: Seq<(Seq<char>, Tree)>,
    parent: Seq<char>,
    in_settings: bool,
    i: int,
)
    requires
        merged_entries(current, patch, parent, in_settings) is Ok,
        forall|a: int, b: int|
            0 <= a < b < patch.len() ==> (#[trigger] patch[a]).0 != (#[trigger] patch[b]).0,
        0 <= i < patch.len(),
        !(patch[i].1 is Table),
        !(patch[i].0 == "extra_args"@ && in_settings && patch[i].1 is Array),
    ensures
        entry_at(merged_entries(current, patch, parent, in_settings)->Ok_0, patch[i].0) == Some(
            patch[i].1,
        ),
    decreases patch.len(),
{
    let front = patch.drop_last();
    let last = patch[patch.len() - 1];
    let before = merged_entries(current, front, parent, in_settings)->Ok_0;
    let after = merged_entries(current, patch, parent, in_settings)->Ok_0;
    if i < patch.len() - 1 {
        assert forall|a: int, b: int| 0 <= a < b < front.len() implies (#[trigger] front[a]).0 != (
        #[trigger] front[b]).0 by {
            assert(front[a] == patch[a] && front[b] == patch[b]);
        }
        law_each_assigned_value_is_read_back(current, front, parent, in_settings, i);
        let value = choose|value: Tree| after == set_entry(before, last.0, value);
        lemma_set_entry(before, last.0, value, patch[i].0);
    } else {
        lemma_set_entry(before, last.0, last.1, last.0);
    }
}

/// A value that is assigned inside a table is read back from that table, and the other
/// keys of the table are kept.
pub proof fn law_value_assigned_inside_a_table_is_read_back(
    current: Seq<(Seq<char>, Tree)>,
    key: Seq<char>,
    inner: Seq<(Seq<char>, Tree)>,
    name: Seq<char>,
    value: Tree,
    other: Seq<char>,
    parent: Seq<char>,
    in_settings: bool,
)
    requires
        entry_at(current, key) == Some(Tree::Table(inner)),
        !(value is Table),
        !(name == "extra_args"@ && key == "settings"@ && value is Array),
        other != name,
    ensures
        ({
            let patch = seq![(key, Tree::Table(seq![(name, value)]))];
            let out = merged_entries(current, patch, parent, in_settings);
            &&& out is Ok
            &&& entry_at(out->Ok_0, key) matches Some(Tree::Table(found))
            &&& entry_at(found, name) == Some(value)
            &&& entry_at(found, other) == entry_at(inner, other)
        }),
{
    let change = seq![(name, value)];
    let patch = seq![(key, Tree::Table(change))];
    let path = entry_path(parent, key);
    let below = key == "settings"@;
    assert(patch.drop_last() =~= Seq::<(Seq<char>, Tree)>::empty());
    assert(merged_entries(current, patch.drop_last(), parent, in_settings) == Ok::<
        Seq<(Seq<char>, Tree)>,
        Seq<char>,
    >(current));
    law_assigned_value_is_read_back(inner, name, value, path, below);
    law_unnamed_keys_are_kept(inner, change, path, below, other);
    let found = merged_entries(inner, change, path, below)->Ok_0;
    assert(merged(Tree::Table(inner), Tree::Table(change), path, below) == Ok::<Tree, Seq<char>>(
        Tree::Table(found),
    ));
    lemma_set_entry(current, key, Tree::Table(found), key);
}

/// No patch descends into a value that is no table.
pub proof fn law_no_patch_descends_into_a_plain_value(
    current: Seq<(Seq<char>, Tree)>,
    key: Seq<char>,
    changes: Seq<(Seq<char>, Tree)>,
    parent: Seq<char>,
    in_settings: bool,
)
    requires
        entry_at(current, key) is Some,
        !(entry_at(current, key)->0 is Table),
    ensures
        merged_entries(current, seq![(key, Tree::Table(changes))], parent, in_settings) is Err,
{
    let patch = seq![(key, Tree::Table(changes))];
    assert(patch.drop_last() =~= Seq::<(Seq<char>, Tree)>::empty());
    assert(merged_entries(current, patch.drop_last(), parent, in_settings) == Ok::<
        Seq<(Seq<char>, Tree)>,
        Seq<char>,
    >(current));
}

/// An override is taken over exactly where its path is one line, its value is one value and
/// path and assignment can be read; it changes what the assignment says, below the first
/// key of the path.
pub proof fn law_override_assigns_one_value_at_one_path(
    path: Seq<char>,
    value: Result<Tree, Seq<char>>,
    key: Result<Tree, Seq<char>>,
    whole: Result<Tree, Seq<char>>,
)
    ensures
        ({
            let found = assignment_of(path, value, key, whole);
            &&& found is Ok <==> {
                &&& path.len() > 0 && !path.contains('\n') && !path.contains('\r')
                &&& value matches Ok(Tree::Table(entries))
                &&& entries.len() == 1 && entries[0].0 == "value"@
                &&& key matches Ok(Tree::Table(keys))
                &&& keys.len() > 0
                &&& whole is Ok
            }
            &&& found matches Ok((root, patch)) ==> {
                &&& key matches Ok(Tree::Table(keys))
                &&& root == keys[0].0
                &&& whole matches Ok(Tree::Table(entries)) ==> patch == Tree::Table(entries)
            }
        }),
{
}

/// Arrays of extra arguments compose by their flags directly under the settings; anywhere
/// else the later array takes the place of the earlier.
pub proof fn law_extra_arguments_compose_only_in_settings(
    current: Seq<(Seq<char>, Tree)>,
    base: Seq<Seq<char>>,
    patch: Seq<Seq<char>>,
    parent: Seq<char>,
)
    requires
        entry_at(current, "extra_args"@) == Some(array_of(base)),
        segmented(base, entry_path(parent, "extra_args"@)) is Ok,
        segmented(patch, entry_path(parent, "extra_args"@)) is Ok,
    ensures
        ({
            let change = seq![("extra_args"@, array_of(patch))];
            let path = entry_path(parent, "extra_args"@);
            let composed = flattened(
                merged_groups(segmented(base, path)->Ok_0, segmented(patch, path)->Ok_0),
            );
            &&& merged_entries(current, change, parent, true) matches Ok(out) && entry_at(
                out,
                "extra_args"@,
            ) == Some(array_of(composed))
            &&& merged_entries(current, change, parent, false) matches Ok(out) && entry_at(
                out,
                "extra_args"@,
            ) == Some(array_of(patch))
        }),
{
    let key = "extra_args"@;
    let change = seq![(key, array_of(patch))];
    let path = entry_path(parent, key);
    assert(change.drop_last() =~= Seq::<(Seq<char>, Tree)>::empty());
    assert(merged_entries(current, change.drop_last(), parent, true) == Ok::<
        Seq<(Seq<char>, Tree)>,
        Seq<char>,
    >(current));
    law_extra_arguments_compose_by_flag(base, patch, path);
    let composed = flattened(
        merged_groups(segmented(base, path)->Ok_0, segmented(patch, path)->Ok_0),
    );
    lemma_set_entry(current, key, array_of(composed), key);
    law_assigned_value_is_read_back(current, key, array_of(patch), parent, false);
}

/// A declaration is split at its first `=`: the path before it and the value after it make up
/// the declaration again.
pub proof fn law_declaration_is_its_path_and_its_value(
    found: InvocationOverride,
    index: int,
    raw: Seq<char>,
)
    requires
        declares(found, index, raw),
        raw.contains('='),
    ensures
        found.index == index && found.raw@ == raw,
        raw == found.path@.push('=') + found.raw_value@,
        !found.path@.contains('='),
{
    lemma_position(raw, '=');
    let at = position(raw, '=');
    assert(raw =~= raw.take(at).push('=') + raw.skip(at + 1));
    if raw.take(at).contains('=') {
        let j = choose|j: int| 0 <= j < at && raw.take(at)[j] == '=';
        assert(raw[j] == '=');
    }
}

} // verus!
