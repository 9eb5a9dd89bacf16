//! Selection: which definitions and bindings a workflow uses, and what an
//! integration may make of them.

use crate::dict::{less, text_less, Dict};
use crate::error::{answers, invalid_config, or_fault, refuses, InferlabError};
use crate::protocol::{Parallelism, SettingValue};
use crate::search::{first_some, lemma_first_some_stays};
use crate::text::{
    cat2, cat3, cat4, cat7, debug, debug_text, decimal, list_contains, texts, to_decimal,
};
use vstd::prelude::*;
use vstd::string::*;

verus! {

// ---------------------------------------------------------------------------
// Parallelism

/// The sizes of a parallelism, with their names.
pub open spec fn parallelism_list(p: Parallelism) -> Seq<(Seq<char>, Option<u32>)> {
    seq![
        (
            "outer.tensor_parallel_size"@,
            match p.outer {
                Some(v) => v.tensor_parallel_size,
                None => None,
            },
        ),
        (
            "outer.pipeline_parallel_size"@,
            match p.outer {
                Some(v) => v.pipeline_parallel_size,
                None => None,
            },
        ),
        (
            "attention.tensor_parallel_size"@,
            match p.attention {
                Some(v) => v.tensor_parallel_size,
                None => None,
            },
        ),
        (
            "attention.data_parallel_size"@,
            match p.attention {
                Some(v) => v.data_parallel_size,
                None => None,
            },
        ),
        (
            "attention.context_parallel_size"@,
            match p.attention {
                Some(v) => v.context_parallel_size,
                None => None,
            },
        ),
        (
            "experts.tensor_parallel_size"@,
            match p.experts {
                Some(v) => v.tensor_parallel_size,
                None => None,
            },
        ),
        (
            "experts.data_parallel_size"@,
            match p.experts {
                Some(v) => v.data_parallel_size,
                None => None,
            },
        ),
        (
            "experts.expert_parallel_size"@,
            match p.experts {
                Some(v) => v.expert_parallel_size,
                None => None,
            },
        ),
        (
            "experts.dense_tensor_parallel_size"@,
            match p.experts {
                Some(v) => v.dense_tensor_parallel_size,
                None => None,
            },
        ),
    ]
}

/// The views of named sizes.
pub open spec fn size_views(list: Seq<(&'static str, Option<u32>)>) -> Seq<
    (Seq<char>, Option<u32>),
> {
    list.map_values(|entry: (&'static str, Option<u32>)| (entry.0@, entry.1))
}

/// The sizes of a parallelism, with their names.
pub fn parallelism_values(p: &Parallelism) -> (r: Vec<(&'static str, Option<u32>)>)
    ensures
        size_views(r@) == parallelism_list(*p),
        r@.len() == 9,
{
    let (outer_tensor, outer_pipeline): (Option<u32>, Option<u32>) = match &p.outer {
        Some(v) => (v.tensor_parallel_size, v.pipeline_parallel_size),
        None => (None, None),
    };
    let (attention_tensor, attention_data, attention_context): (
        Option<u32>,
        Option<u32>,
        Option<u32>,
    ) = match &p.attention {
        Some(v) => (v.tensor_parallel_size, v.data_parallel_size, v.context_parallel_size),
        None => (None, None, None),
    };
    let (experts_tensor, experts_data, experts_expert, experts_dense): (
        Option<u32>,
        Option<u32>,
        Option<u32>,
        Option<u32>,
    ) = match &p.experts {
        Some(v) => (
            v.tensor_parallel_size,
            v.data_parallel_size,
            v.expert_parallel_size,
            v.dense_tensor_parallel_size,
        ),
        None => (None, None, None, None),
    };
    let mut out: Vec<(&'static str, Option<u32>)> = Vec::new();
    out.push(("outer.tensor_parallel_size", outer_tensor));
    out.push(("outer.pipeline_parallel_size", outer_pipeline));
    out.push(("attention.tensor_parallel_size", attention_tensor));
    out.push(("attention.data_parallel_size", attention_data));
    out.push(("attention.context_parallel_size", attention_context));
    out.push(("experts.tensor_parallel_size", experts_tensor));
    out.push(("experts.data_parallel_size", experts_data));
    out.push(("experts.expert_parallel_size", experts_expert));
    out.push(("experts.dense_tensor_parallel_size", experts_dense));
    assert(size_views(out@) =~= parallelism_list(*p));
    out
}

/// What `format!("{:?}", size)` renders.
pub open spec fn debug_size_text(size: Option<u32>) -> Seq<char> {
    match size {
        Some(n) => "Some("@ + decimal(n as nat) + ")"@,
        None => "None"@,
    }
}

fn debug_size(size: Option<u32>) -> (r: String)
    ensures
        r@ == debug_size_text(size),
{
    match size {
        Some(n) => cat3("Some(", to_decimal(n as u64).as_str(), ")"),
        None => "None".to_owned(),
    }
}

/// The text of the refusal of a size that is not concrete.
pub open spec fn non_concrete_text(
    integration: Seq<char>,
    scope: Seq<char>,
    field: Seq<char>,
    value: Option<u32>,
) -> Seq<char> {
    "integration "@ + debug_text(integration) + " returned non-concrete effective "@ + scope
        + " parallelism."@ + field + ("="@ + debug_size_text(value))
}

/// The refusal of a size that is not concrete.
pub fn non_concrete_parallelism(
    integration: &str,
    scope: &str,
    field: &str,
    value: Option<u32>,
) -> (r: Result<(), InferlabError>)
    ensures
        refuses(r, non_concrete_text(integration@, scope@, field@, value)),
{
    invalid_config(
        cat7(
            "integration ",
            debug(integration).as_str(),
            " returned non-concrete effective ",
            scope,
            " parallelism.",
            field,
            cat2("=", debug_size(value).as_str()).as_str(),
        ),
    )
}

/// Why the effective size at a position is not concrete.
pub open spec fn concrete_fault(
    integration: Seq<char>,
    scope: Seq<char>,
    effective: Parallelism,
) -> spec_fn(int) -> Option<Seq<char>> {
    |i: int|
        {
            let (field, value) = parallelism_list(effective)[i];
            match value {
                Some(n) => if n > 0 {
                    None
                } else {
                    Some(non_concrete_text(integration, scope, field, value))
                },
                None => Some(non_concrete_text(integration, scope, field, value)),
            }
        }
}

/// Why the effective size at a position departs from the declared one.
pub open spec fn departure_fault(
    integration: Seq<char>,
    scope: Seq<char>,
    declared: Parallelism,
    effective: Parallelism,
) -> spec_fn(int) -> Option<Seq<char>> {
    |i: int|
        {
            let (field, wanted) = parallelism_list(declared)[i];
            let (_, got) = parallelism_list(effective)[i];
            if wanted is Some && wanted != got {
                Some(
                    "integration "@ + debug_text(integration) + " changed explicitly declared "@
                        + scope + " parallelism."@ + field + (" from "@ + debug_size_text(wanted)
                        + " to "@ + debug_size_text(got)),
                )
            } else {
                None
            }
        }
}

/// Why an effective parallelism is refused.
pub open spec fn parallelism_fault(
    integration: Seq<char>,
    scope: Seq<char>,
    declared: Parallelism,
    effective: Parallelism,
) -> Option<Seq<char>> {
    or_fault(
        first_some(9, concrete_fault(integration, scope, effective)),
        first_some(9, departure_fault(integration, scope, declared, effective)),
    )
}

fn same_size(a: Option<u32>, b: Option<u32>) -> (r: bool)
    ensures
        r == (a == b),
{
    match (a, b) {
        (Some(x), Some(y)) => x == y,
        (None, None) => true,
        _ => false,
    }
}

/// Refuses an effective parallelism with a size that is not concrete, or that
/// departs from what was declared.
pub fn validate_effective_parallelism(
    integration: &str,
    scope: &str,
    declared: &Parallelism,
    effective: &Parallelism,
) -> (r: Result<(), InferlabError>)
    ensures
        answers(r, parallelism_fault(integration@, scope@, *declared, *effective)),
{
    let got = parallelism_values(effective);
    let wanted = parallelism_values(declared);
    let ghost f = concrete_fault(integration@, scope@, *effective);
    let ghost g = departure_fault(integration@, scope@, *declared, *effective);
    let mut i: usize = 0;
    while i < 9
        invariant
            i <= 9,
            got@.len() == 9,
            size_views(got@) == parallelism_list(*effective),
            f == concrete_fault(integration@, scope@, *effective),
            first_some(i as nat, f) is None,
        decreases 9 - i,
    {
        let (field, value) = got[i];
        assert(size_views(got@)[i as int] == (field@, value));
        let concrete = match value {
            Some(n) => n > 0,
            None => false,
        };
        if !concrete {
            proof {
                lemma_first_some_stays((i + 1) as nat, 9, f);
            }
            return non_concrete_parallelism(integration, scope, field, value);
        }
        i += 1;
    }
    let mut k: usize = 0;
    while k < 9
        invariant
            k <= 9,
            got@.len() == 9,
            wanted@.len() == 9,
            size_views(got@) == parallelism_list(*effective),
            size_views(wanted@) == parallelism_list(*declared),
            first_some(9, concrete_fault(integration@, scope@, *effective)) is None,
            g == departure_fault(integration@, scope@, *declared, *effective),
            first_some(k as nat, g) is None,
        decreases 9 - k,
    {
        let (field, declared_size) = wanted[k];
        let (_, effective_size) = got[k];
        assert(size_views(wanted@)[k as int] == (field@, declared_size));
        assert(size_views(got@)[k as int].1 == effective_size);
        if declared_size.is_some() && !same_size(declared_size, effective_size) {
            proof {
                lemma_first_some_stays((k + 1) as nat, 9, g);
            }
            return invalid_config(
                cat7(
                    "integration ",
                    debug(integration).as_str(),
                    " changed explicitly declared ",
                    scope,
                    " parallelism.",
                    field,
                    cat4(
                        " from ",
                        debug_size(declared_size).as_str(),
                        " to ",
                        debug_size(effective_size).as_str(),
                    ).as_str(),
                ),
            );
        }
        k += 1;
    }
    Ok(())
}

// ---------------------------------------------------------------------------
// Settings

/// The paths of the leaves of a setting; an empty object is a leaf.
pub open spec fn flattened_value(path: Seq<char>, value: SettingValue) -> Seq<Seq<char>>
    decreases value,
{
    match value {
        SettingValue::Object(entries) => if entries@.len() > 0 {
            flattened_entries(path + "."@, entries@)
        } else {
            seq![path]
        },
        _ => seq![path],
    }
}

/// The paths of the leaves of settings under a prefix.
pub open spec fn flattened_entries(
    prefix: Seq<char>,
    entries: Seq<(String, SettingValue)>,
) -> Seq<Seq<char>>
    decreases entries,
{
    if entries.len() == 0 {
        Seq::empty()
    } else {
        flattened_entries(prefix, entries.drop_last()) + flattened_value(
            prefix + entries[entries.len() - 1].0@,
            entries[entries.len() - 1].1,
        )
    }
}

/// Adds the paths of the leaves of a setting.
pub fn flatten_setting(flattened: &mut Vec<String>, path: &str, value: &SettingValue)
    ensures
        texts(final(flattened)@) == texts(old(flattened)@) + flattened_value(path@, *value),
    decreases *value,
{
    let ghost before = texts(flattened@);
    match value {
        SettingValue::Object(entries) => {
            if entries.len() > 0 {
                let prefix = cat2(path, ".");
                flatten_entries(flattened, prefix.as_str(), entries, entries.len());
                assert(entries@.take(entries@.len() as int) =~= entries@);
                return;
            }
        },
        _ => {},
    }
    flattened.push(path.to_owned());
    assert(texts(flattened@) =~= before + seq![path@]);
}

fn flatten_entries(
    flattened: &mut Vec<String>,
    prefix: &str,
    entries: &Vec<(String, SettingValue)>,
    n: usize,
)
    requires
        n <= entries@.len(),
    ensures
        texts(final(flattened)@) == texts(old(flattened)@) + flattened_entries(
            prefix@,
            entries@.take(n as int),
        ),
    decreases *entries, n,
{
    let ghost before = texts(flattened@);
    if n == 0 {
        assert(before + flattened_entries(prefix@, entries@.take(0)) =~= before);
        return;
    }
    flatten_entries(flattened, prefix, entries, n - 1);
    let ghost middle = texts(flattened@);
    let entry = &entries[n - 1];
    let path = cat2(prefix, entry.0.as_str());
    flatten_setting(flattened, path.as_str(), &entry.1);
    proof {
        let whole = entries@.take(n as int);
        assert(whole.drop_last() =~= entries@.take(n - 1));
        assert(whole[whole.len() - 1] == entries@[n - 1]);
        assert(texts(flattened@) =~= before + flattened_entries(prefix@, whole));
    }
}

/// The paths of the leaves of settings.
pub open spec fn setting_paths(settings: Dict<SettingValue>) -> Seq<Seq<char>> {
    flattened_entries(Seq::empty(), settings.entries@)
}

/// The paths of the leaves of settings.
pub fn flattened_settings(settings: &Dict<SettingValue>) -> (r: Vec<String>)
    ensures
        texts(r@) == setting_paths(*settings),
{
    let mut out: Vec<String> = Vec::new();
    let empty = String::new();
    flatten_entries(&mut out, empty.as_str(), &settings.entries, settings.entries.len());
    assert(settings.entries@.take(settings.entries@.len() as int) =~= settings.entries@);
    assert(empty@ =~= Seq::<char>::empty());
    assert(texts(out@) =~= setting_paths(*settings));
    out
}

/// The path is one that was requested and has no effective setting.
pub open spec fn omitted(requested: Seq<Seq<char>>, effective: Seq<Seq<char>>, path: Seq<char>) -> bool {
    requested.contains(path) && !effective.contains(path)
}

fn check_contains_path(paths: &[String], path: &str) -> (r: bool)
    ensures
        r == texts(paths@).contains(path@),
{
    let r = list_contains(paths, path);
    proof {
        if r {
            let i = choose|i: int| 0 <= i < paths@.len() && (#[trigger] paths@[i])@ == path@;
            assert(texts(paths@)[i] == path@);
        } else if texts(paths@).contains(path@) {
            let i = choose|i: int| 0 <= i < texts(paths@).len() && texts(paths@)[i] == path@;
            assert(paths@[i]@ == path@);
        }
    }
    r
}

/// The refusal of an integration that drops a setting.
pub open spec fn omitted_text(integration: Seq<char>, path: Seq<char>) -> Seq<char> {
    "integration "@ + debug_text(integration) + " omitted effective server setting "@ + debug_text(
        path,
    )
}

/// The path is the first of the omitted ones, in the order of paths.
pub open spec fn first_omitted(
    requested: Seq<Seq<char>>,
    effective: Seq<Seq<char>>,
    path: Seq<char>,
) -> bool {
    &&& omitted(requested, effective, path)
    &&& forall|other: Seq<char>| #[trigger]
        omitted(requested, effective, other) ==> other == path || text_less(path, other)
}

/// Why effective settings are refused: the first requested path that they lack.
pub open spec fn settings_fault(
    integration: Seq<char>,
    requested: Dict<SettingValue>,
    effective: Dict<SettingValue>,
) -> Option<Seq<char>> {
    let w = setting_paths(requested);
    let g = setting_paths(effective);
    if exists|path: Seq<char>| first_omitted(w, g, path) {
        Some(omitted_text(integration, choose|path: Seq<char>| first_omitted(w, g, path)))
    } else {
        None
    }
}

/// Only one path is the first of the omitted ones.
proof fn lemma_first_omitted(w: Seq<Seq<char>>, g: Seq<Seq<char>>, a: Seq<char>, b: Seq<char>)
    requires
        first_omitted(w, g, a),
        first_omitted(w, g, b),
    ensures
        a == b,
{
    if a != b {
        crate::dict::lemma_less_transitive(a, b, a);
        crate::dict::lemma_less_irreflexive(a);
    }
}

/// Refuses effective settings that lack a requested one, and names the first of
/// those in the order of paths.
pub fn validate_effective_settings(
    requested: &Dict<SettingValue>,
    effective: &Dict<SettingValue>,
    integration: &str,
) -> (r: Result<(), InferlabError>)
    ensures
        answers(r, settings_fault(integration@, *requested, *effective)),
        r is Ok <==> forall|path: Seq<char>|
            !omitted(setting_paths(*requested), setting_paths(*effective), path),
{
    let wanted = flattened_settings(requested);
    let got = flattened_settings(effective);
    let ghost w = setting_paths(*requested);
    let ghost g = setting_paths(*effective);
    let mut first: Option<usize> = None;
    let mut i: usize = 0;
    while i < wanted.len()
        invariant
            i <= wanted@.len(),
            texts(wanted@) == w,
            texts(got@) == g,
            w == setting_paths(*requested),
            g == setting_paths(*effective),
            match first {
                None => forall|j: int| 0 <= j < i ==> g.contains(#[trigger] w[j]),
                Some(k) => k < i && !g.contains(w[k as int]) && forall|j: int|
                    0 <= j < i && !g.contains(#[trigger] w[j]) ==> w[j] == w[k as int] || text_less(
                        w[k as int],
                        w[j],
                    ),
            },
        decreases wanted@.len() - i,
    {
        assert(w[i as int] == wanted@[i as int]@);
        if !check_contains_path(got.as_slice(), wanted[i].as_str()) {
            match first {
                None => {
                    first = Some(i);
                },
                Some(k) => {
                    assert(w[k as int] == wanted@[k as int]@);
                    if less(wanted[i].as_str(), wanted[k].as_str()) {
                        proof {
                            assert forall|j: int|
                                0 <= j < i && !g.contains(#[trigger] w[j]) implies w[j]
                                == w[i as int] || text_less(w[i as int], w[j]) by {
                                if w[j] != w[k as int] {
                                    crate::dict::lemma_less_transitive(
                                        w[i as int],
                                        w[k as int],
                                        w[j],
                                    );
                                }
                            }
                        }
                        first = Some(i);
                    } else {
                        proof {
                            crate::dict::lemma_less_total(w[i as int], w[k as int]);
                        }
                    }
                },
            }
        }
        i += 1;
    }
    match first {
        None => {
            assert forall|path: Seq<char>| !omitted(w, g, path) by {
                if w.contains(path) {
                    let j = choose|j: int| 0 <= j < w.len() && w[j] == path;
                    assert(g.contains(w[j]));
                }
            }
            Ok(())
        },
        Some(k) => {
            proof {
                let path = w[k as int];
                assert(omitted(w, g, path));
                assert forall|other: Seq<char>| #[trigger] omitted(w, g, other) implies other
                    == path || text_less(path, other) by {
                    let j = choose|j: int| 0 <= j < w.len() && w[j] == other;
                    assert(!g.contains(w[j]));
                }
                assert(path == wanted@[k as int]@);
                assert(first_omitted(w, g, path));
                lemma_first_omitted(w, g, path, choose|p: Seq<char>| first_omitted(w, g, p));
            }
            invalid_config(
                cat4(
                    "integration ",
                    debug(integration).as_str(),
                    " omitted effective server setting ",
                    debug(wanted[k].as_str()).as_str(),
                ),
            )
        },
    }
}

// ---------------------------------------------------------------------------
// Lookup

/// The definition with the id.
pub fn lookup<'a, T>(label: &str, id: &str, definitions: &'a Dict<T>) -> (r: Result<
    &'a T,
    InferlabError,
>)
    ensures
        match definitions.at(id@) {
            Some(definition) => r is Ok && *r->Ok_0 == definition,
            None => refuses(r, "unknown "@ + label@ + " "@ + debug_text(id@)),
        },
{
    match definitions.get(id) {
        Some(definition) => Ok(definition),
        None => invalid_config(cat4("unknown ", label, " ", debug(id).as_str())),
    }
}

// ---------------------------------------------------------------------------
// Laws

/// An accepted parallelism is concrete: each of its sizes is set and not zero. Each
/// size that was declared is kept as it was declared.
pub proof fn law_accepted_parallelism_keeps_what_was_declared(
    integration: Seq<char>,
    scope: Seq<char>,
    declared: Parallelism,
    effective: Parallelism,
)
    requires
        parallelism_fault(integration, scope, declared, effective) is None,
    ensures
        effective.outer matches Some(got) && {
            &&& got.tensor_parallel_size matches Some(n) && n > 0
            &&& got.pipeline_parallel_size matches Some(n) && n > 0
            &&& (declared.outer matches Some(wanted) ==> {
                &&& wanted.tensor_parallel_size is Some ==> got.tensor_parallel_size
                    == wanted.tensor_parallel_size
                &&& wanted.pipeline_parallel_size is Some ==> got.pipeline_parallel_size
                    == wanted.pipeline_parallel_size
            })
        },
        effective.attention matches Some(got) && {
            &&& got.tensor_parallel_size matches Some(n) && n > 0
            &&& got.data_parallel_size matches Some(n) && n > 0
            &&& got.context_parallel_size matches Some(n) && n > 0
            &&& (declared.attention matches Some(wanted) ==> {
                &&& wanted.tensor_parallel_size is Some ==> got.tensor_parallel_size
                    == wanted.tensor_parallel_size
                &&& wanted.data_parallel_size is Some ==> got.data_parallel_size
                    == wanted.data_parallel_size
                &&& wanted.context_parallel_size is Some ==> got.context_parallel_size
                    == wanted.context_parallel_size
            })
        },
        effective.experts matches Some(got) && {
            &&& got.tensor_parallel_size matches Some(n) && n > 0
            &&& got.data_parallel_size matches Some(n) && n > 0
            &&& got.expert_parallel_size matches Some(n) && n > 0
            &&& got.dense_tensor_parallel_size matches Some(n) && n > 0
            &&& (declared.experts matches Some(wanted) ==> {
                &&& wanted.tensor_parallel_size is Some ==> got.tensor_parallel_size
                    == wanted.tensor_parallel_size
                &&& wanted.data_parallel_size is Some ==> got.data_parallel_size
                    == wanted.data_parallel_size
                &&& wanted.expert_parallel_size is Some ==> got.expert_parallel_size
                    == wanted.expert_parallel_size
                &&& wanted.dense_tensor_parallel_size is Some ==> got.dense_tensor_parallel_size
                    == wanted.dense_tensor_parallel_size
            })
        },
{
    let concrete = concrete_fault(integration, scope, effective);
    let departure = departure_fault(integration, scope, declared, effective);
    crate::search::lemma_first_some_none(9, concrete);
    crate::search::lemma_first_some_none(9, departure);
    assert(concrete(0) is None && departure(0) is None);
    assert(concrete(1) is None && departure(1) is None);
    assert(concrete(2) is None && departure(2) is None);
    assert(concrete(3) is None && departure(3) is None);
    assert(concrete(4) is None && departure(4) is None);
    assert(concrete(5) is None && departure(5) is None);
    assert(concrete(6) is None && departure(6) is None);
    assert(concrete(7) is None && departure(7) is None);
    assert(concrete(8) is None && departure(8) is None);
}

/// A parallelism with every size set and not zero, in which no declared size is
/// changed, is accepted.
pub proof fn law_concrete_parallelism_is_accepted(
    integration: Seq<char>,
    scope: Seq<char>,
    declared: Parallelism,
    effective: Parallelism,
)
    requires
        forall|i: int|
            0 <= i < 9 ==> ((#[trigger] parallelism_list(effective)[i]).1 matches Some(n) && n > 0),
        forall|i: int|
            0 <= i < 9 && (#[trigger] parallelism_list(declared)[i]).1 is Some
                ==> parallelism_list(effective)[i].1 == parallelism_list(declared)[i].1,
    ensures
        parallelism_fault(integration, scope, declared, effective) is None,
{
    let concrete = concrete_fault(integration, scope, effective);
    let departure = departure_fault(integration, scope, declared, effective);
    crate::search::lemma_first_some_none(9, concrete);
    crate::search::lemma_first_some_none(9, departure);
    assert forall|i: int| 0 <= i < 9 implies #[trigger] concrete(i) is None by {
        assert(parallelism_list(effective)[i].1 is Some);
    }
    assert forall|i: int| 0 <= i < 9 implies #[trigger] departure(i) is None by {
        assert(parallelism_list(declared)[i].1 is Some ==> parallelism_list(effective)[i].1
            == parallelism_list(declared)[i].1);
    }
}

/// The settings that were requested are effective where they are themselves given
/// back.
pub proof fn law_requested_settings_given_back_are_accepted(
    integration: Seq<char>,
    settings: Dict<SettingValue>,
)
    ensures
        settings_fault(integration, settings, settings) is None,
{
}

/// A leaf of the settings, at the top or one level below, is among their paths.
pub proof fn law_every_leaf_has_its_path(
    prefix: Seq<char>,
    entries: Seq<(String, SettingValue)>,
    i: int,
)
    requires
        0 <= i < entries.len(),
    ensures
        !(entries[i].1 is Object) ==> flattened_entries(prefix, entries).contains(
            prefix + entries[i].0@,
        ),
        (entries[i].1 matches SettingValue::Object(inner) ==> forall|path: Seq<char>|
            #[trigger] flattened_entries(prefix + entries[i].0@ + "."@, inner@).contains(path)
                && inner@.len() > 0 ==> flattened_entries(prefix, entries).contains(path)),
    decreases entries.len(),
{
    let all = flattened_entries(prefix, entries);
    let before = flattened_entries(prefix, entries.drop_last());
    let last = entries[entries.len() - 1];
    let own = flattened_value(prefix + last.0@, last.1);
    assert(all == before + own);
    if i < entries.len() - 1 {
        law_every_leaf_has_its_path(prefix, entries.drop_last(), i);
        assert(entries.drop_last()[i] == entries[i]);
        assert forall|path: Seq<char>| before.contains(path) implies all.contains(path) by {
            let k = choose|k: int| 0 <= k < before.len() && before[k] == path;
            assert(all[k] == path);
        }
    } else {
        assert forall|path: Seq<char>| own.contains(path) implies all.contains(path) by {
            let k = choose|k: int| 0 <= k < own.len() && own[k] == path;
            assert(all[before.len() + k] == path);
        }
        if !(entries[i].1 is Object) {
            assert(own[0] == prefix + entries[i].0@);
        }
    }
}

} // verus!
