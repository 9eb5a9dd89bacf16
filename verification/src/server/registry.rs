//! Target registries: what a router reports of the workers behind it.

use crate::json_value::{json_items, json_tree, lemma_json_items, JsonTree, JsonValue};
use crate::resolve::allocation::{TargetRegistryExpectedTarget, TargetRegistryPlan};
use crate::search::{first_some, lemma_first_some_stays};
use crate::text::{cat2, cat3, cat4, cat5, debug, debug_text, decimal, same, to_decimal};
use crate::time_bound::OperationBound;
use vstd::prelude::*;
use vstd::string::*;

verus! {

/// A target that a registry reported as expected.
#[derive(Debug)]
pub struct TargetRegistryMatchEvidence {
    pub url: String,
    pub role: String,
    pub healthy: bool,
    pub bootstrap_port: Option<u16>,
}

/// A target that a registry reported as expected, as values.
pub struct MatchView {
    pub url: Seq<char>,
    pub role: Seq<char>,
    pub healthy: bool,
    pub bootstrap_port: Option<u16>,
}

impl View for TargetRegistryMatchEvidence {
    type V = MatchView;

    open spec fn view(&self) -> MatchView {
        MatchView {
            url: self.url@,
            role: self.role@,
            healthy: self.healthy,
            bootstrap_port: self.bootstrap_port,
        }
    }
}

/// The targets that a registry reported.
pub open spec fn matches_of(list: Seq<TargetRegistryMatchEvidence>) -> Seq<MatchView> {
    Seq::new(list.len(), |i: int| list[i]@)
}

// ---------------------------------------------------------------------------
// One target

/// Whether a field of an entry holds the text.
pub open spec fn field_is(entry: JsonTree, key: Seq<char>, text: Seq<char>) -> bool {
    entry.field(key) == Some(JsonTree::Text(text))
}

/// Whether an entry of a registry stands for a target.
pub open spec fn stands_for(
    entry: JsonTree,
    plan: TargetRegistryPlan,
    expected: TargetRegistryExpectedTarget,
) -> bool {
    field_is(entry, plan.target_url_field@, expected.url@) && field_is(
        entry,
        plan.target_role_field@,
        expected.role@,
    )
}

/// The entries of a registry that stand for a target.
pub open spec fn standing(
    entries: Seq<JsonTree>,
    plan: TargetRegistryPlan,
    expected: TargetRegistryExpectedTarget,
) -> Seq<JsonTree>
    decreases entries.len(),
{
    if entries.len() == 0 {
        Seq::empty()
    } else {
        let before = standing(entries.drop_last(), plan, expected);
        if stands_for(entries.last(), plan, expected) {
            before.push(entries.last())
        } else {
            before
        }
    }
}

/// The words for an entry of a registry.
pub open spec fn entry_words(expected: TargetRegistryExpectedTarget) -> Seq<char> {
    "target registry entry for "@ + debug_text(expected.role@) + " at "@ + debug_text(expected.url@)
}

/// The port that an entry reports: none where it has none, and no reading where it
/// has something else than a port.
pub open spec fn reported_port(entry: JsonTree, key: Seq<char>) -> Option<Option<u16>> {
    match entry.field(key) {
        None => Some(None),
        Some(JsonTree::Null) => Some(None),
        Some(JsonTree::Unsigned(port)) => if port <= u16::MAX {
            Some(Some(port as u16))
        } else {
            None
        },
        Some(_) => None,
    }
}

/// An optional port, as it is shown.
pub open spec fn shown_port(port: Option<u16>) -> Seq<char> {
    match port {
        Some(number) => "Some("@ + decimal(number as nat) + ")"@,
        None => "None"@,
    }
}

/// What the one entry that stands for a target tells of it.
pub open spec fn entry_told(
    entry: JsonTree,
    plan: TargetRegistryPlan,
    expected: TargetRegistryExpectedTarget,
) -> Result<MatchView, Seq<char>> {
    match entry.field(plan.target_healthy_field@) {
        Some(JsonTree::Bool(healthy)) => if !healthy {
            Err(entry_words(expected) + " is not healthy"@)
        } else {
            match reported_port(entry, plan.target_bootstrap_port_field@) {
                None => Err(
                    entry_words(expected) + " has invalid "@ + debug_text(
                        plan.target_bootstrap_port_field@,
                    ),
                ),
                Some(port) => if expected.bootstrap_port matches Some(wanted) && port != Some(
                    wanted,
                ) {
                    Err(
                        entry_words(expected) + " has bootstrap port "@ + shown_port(port)
                            + ", expected "@ + decimal(expected.bootstrap_port->0 as nat),
                    )
                } else {
                    Ok(
                        MatchView {
                            url: expected.url@,
                            role: expected.role@,
                            healthy: true,
                            bootstrap_port: port,
                        },
                    )
                },
            }
        },
        _ => Err(
            entry_words(expected) + " has no boolean "@ + debug_text(plan.target_healthy_field@)
                + " field"@,
        ),
    }
}

/// What a registry tells of a target.
pub open spec fn target_told(
    entries: Seq<JsonTree>,
    plan: TargetRegistryPlan,
    expected: TargetRegistryExpectedTarget,
) -> Result<MatchView, Seq<char>> {
    let found = standing(entries, plan, expected);
    if found.len() == 0 {
        Err(
            "target registry has no "@ + debug_text(expected.role@) + " target at "@ + debug_text(
                expected.url@,
            ),
        )
    } else if found.len() > 1 {
        Err(
            "target registry has multiple "@ + debug_text(expected.role@) + " targets at "@
                + debug_text(expected.url@),
        )
    } else {
        entry_told(found[0], plan, expected)
    }
}

fn text_field_is(entry: &JsonValue, key: &str, text: &str) -> (r: bool)
    ensures
        r == field_is(entry@, key@, text@),
{
    match entry.get(key) {
        Some(JsonValue::Text(found)) => same(found.as_str(), text),
        _ => false,
    }
}

fn show_port(port: Option<u16>) -> (r: String)
    ensures
        r@ == shown_port(port),
{
    match port {
        Some(number) => cat3("Some(", to_decimal(number as u64).as_str(), ")"),
        None => "None".to_owned(),
    }
}

fn show_entry(expected: &TargetRegistryExpectedTarget) -> (r: String)
    ensures
        r@ == entry_words(*expected),
{
    cat4(
        "target registry entry for ",
        debug(expected.role.as_str()).as_str(),
        " at ",
        debug(expected.url.as_str()).as_str(),
    )
}

/// Whether a match is the expected one.
pub open spec fn match_is(
    r: Result<TargetRegistryMatchEvidence, String>,
    expected: Result<MatchView, Seq<char>>,
) -> bool {
    match expected {
        Ok(found) => r matches Ok(evidence) && evidence@ == found,
        Err(text) => r matches Err(found) && found@ == text,
    }
}

fn match_entry(
    entry: &JsonValue,
    plan: &TargetRegistryPlan,
    expected: &TargetRegistryExpectedTarget,
) -> (r: Result<TargetRegistryMatchEvidence, String>)
    ensures
        match_is(r, entry_told(entry@, *plan, *expected)),
{
    let who = show_entry(expected);
    let healthy: bool = match entry.get(plan.target_healthy_field.as_str()) {
        Some(JsonValue::Bool(healthy)) => *healthy,
        _ => {
            return Err(
                cat4(
                    who.as_str(),
                    " has no boolean ",
                    debug(plan.target_healthy_field.as_str()).as_str(),
                    " field",
                ),
            );
        },
    };
    if !healthy {
        return Err(cat2(who.as_str(), " is not healthy"));
    }
    let invalid = cat3(
        who.as_str(),
        " has invalid ",
        debug(plan.target_bootstrap_port_field.as_str()).as_str(),
    );
    let port: Option<u16> = match entry.get(plan.target_bootstrap_port_field.as_str()) {
        None => None,
        Some(JsonValue::Null) => None,
        Some(JsonValue::Unsigned(number)) => {
            if *number > u16::MAX as u64 {
                return Err(invalid);
            }
            Some(*number as u16)
        },
        Some(_) => return Err(invalid),
    };
    if let Some(wanted) = expected.bootstrap_port {
        let matched: bool = match port {
            Some(number) => number == wanted,
            None => false,
        };
        if !matched {
            return Err(
                cat5(
                    who.as_str(),
                    " has bootstrap port ",
                    show_port(port).as_str(),
                    ", expected ",
                    to_decimal(wanted as u64).as_str(),
                ),
            );
        }
    }
    Ok(
        TargetRegistryMatchEvidence {
            url: expected.url.clone(),
            role: expected.role.clone(),
            healthy,
            bootstrap_port: port,
        },
    )
}

fn match_target(
    targets: &Vec<JsonValue>,
    plan: &TargetRegistryPlan,
    expected: &TargetRegistryExpectedTarget,
) -> (r: Result<TargetRegistryMatchEvidence, String>)
    ensures
        match_is(r, target_told(json_items(targets@), *plan, *expected)),
{
    let ghost entries = json_items(targets@);
    proof {
        lemma_json_items(targets@);
    }
    let mut first: Option<usize> = None;
    let mut count: usize = 0;
    let mut i: usize = 0;
    while i < targets.len()
        invariant
            i <= targets@.len(),
            count <= i,
            entries == json_items(targets@),
            entries.len() == targets@.len(),
            forall|j: int|
                0 <= j < targets@.len() ==> (#[trigger] entries[j]) == json_tree(targets@[j]),
            standing(entries.take(i as int), *plan, *expected).len() == count,
            match first {
                Some(j) => count > 0 && j < i && standing(
                    entries.take(i as int),
                    *plan,
                    *expected,
                )[0] == entries[j as int],
                None => count == 0,
            },
        decreases targets@.len() - i,
    {
        proof {
            assert(entries.take(i + 1).drop_last() =~= entries.take(i as int));
            assert(entries.take(i + 1).last() == entries[i as int]);
        }
        let stands: bool = text_field_is(
            &targets[i],
            plan.target_url_field.as_str(),
            expected.url.as_str(),
        ) && text_field_is(
            &targets[i],
            plan.target_role_field.as_str(),
            expected.role.as_str(),
        );
        if stands {
            if first.is_none() {
                first = Some(i);
            }
            count += 1;
        }
        i += 1;
    }
    assert(entries.take(i as int) =~= entries);
    let role = debug(expected.role.as_str());
    let url = debug(expected.url.as_str());
    match first {
        None => Err(
            cat4("target registry has no ", role.as_str(), " target at ", url.as_str()),
        ),
        Some(place) => {
            if count > 1 {
                return Err(
                    cat4(
                        "target registry has multiple ",
                        role.as_str(),
                        " targets at ",
                        url.as_str(),
                    ),
                );
            }
            match_entry(&targets[place], plan, expected)
        },
    }
}

// ---------------------------------------------------------------------------
// The registry

/// What is told to an operation whose time is up.
pub open spec fn expired_words() -> Seq<char> {
    "readiness operation deadline expired"@
}

/// Refuses an operation whose time is up.
pub fn readiness_remaining(bound: &OperationBound, now: u128) -> (r: Result<(), String>)
    ensures
        if bound.kind.left_at(now) is Expired {
            r matches Err(found) && found@ == expired_words()
        } else {
            r is Ok
        },
{
    if bound.is_expired(now) {
        Err("readiness operation deadline expired".to_owned())
    } else {
        Ok(())
    }
}

/// Why the first targets of a registry are not as expected.
pub open spec fn targets_fault(entries: Seq<JsonTree>, plan: TargetRegistryPlan) -> spec_fn(int) -> Option<
    Seq<char>,
> {
    |i: int|
        match target_told(entries, plan, plan.expected_targets@[i]) {
            Ok(_) => None,
            Err(text) => Some(text),
        }
}

/// What a registry tells of the expected targets.
pub open spec fn registry_told(response: JsonTree, plan: TargetRegistryPlan) -> Result<
    Seq<MatchView>,
    Seq<char>,
> {
    match response.field(plan.targets_field@) {
        Some(JsonTree::Array(entries)) => match first_some(
            plan.expected_targets@.len(),
            targets_fault(entries, plan),
        ) {
            Some(text) => Err(text),
            None => Ok(
                Seq::new(
                    plan.expected_targets@.len(),
                    |i: int| target_told(entries, plan, plan.expected_targets@[i])->Ok_0,
                ),
            ),
        },
        _ => Err("target registry response has no array field "@ + debug_text(plan.targets_field@)),
    }
}

/// Whether matches are the expected ones.
pub open spec fn matches_are(
    r: Result<Vec<TargetRegistryMatchEvidence>, String>,
    expected: Result<Seq<MatchView>, Seq<char>>,
) -> bool {
    match expected {
        Ok(found) => r matches Ok(evidence) && matches_of(evidence@) == found,
        Err(text) => r matches Err(found) && found@ == text,
    }
}

/// Holds the response of a registry to the expected targets: each must be reported
/// once, healthy, and with its bootstrap port where one is expected. The time that
/// is left counts first.
pub fn match_target_registry(
    response: &JsonValue,
    plan: &TargetRegistryPlan,
    bound: &OperationBound,
    now: u128,
) -> (r: Result<Vec<TargetRegistryMatchEvidence>, String>)
    ensures
        matches_are(
            r,
            if bound.kind.left_at(now) is Expired {
                Err(expired_words())
            } else {
                registry_told(response@, *plan)
            },
        ),
{
    match readiness_remaining(bound, now) {
        Err(error) => return Err(error),
        Ok(()) => {},
    }
    let targets: &Vec<JsonValue> = match response.get(plan.targets_field.as_str()) {
        Some(JsonValue::Array(targets)) => targets,
        _ => {
            return Err(
                cat2(
                    "target registry response has no array field ",
                    debug(plan.targets_field.as_str()).as_str(),
                ),
            );
        },
    };
    let ghost entries = json_items(targets@);
    let ghost fault = targets_fault(entries, *plan);
    let ghost told = Seq::new(
        plan.expected_targets@.len(),
        |i: int| target_told(entries, *plan, plan.expected_targets@[i])->Ok_0,
    );
    let mut evidence: Vec<TargetRegistryMatchEvidence> = Vec::new();
    assert(matches_of(evidence@) =~= told.take(0));
    let mut i: usize = 0;
    while i < plan.expected_targets.len()
        invariant
            i <= plan.expected_targets@.len(),
            entries == json_items(targets@),
            fault == targets_fault(entries, *plan),
            told == Seq::new(
                plan.expected_targets@.len(),
                |i: int| target_told(entries, *plan, plan.expected_targets@[i])->Ok_0,
            ),
            first_some(i as nat, fault) is None,
            matches_of(evidence@) == told.take(i as int),
            response@.field(plan.targets_field@) == Some(JsonTree::Array(entries)),
            !(bound.kind.left_at(now) is Expired),
        decreases plan.expected_targets@.len() - i,
    {
        match match_target(targets, plan, &plan.expected_targets[i]) {
            Err(error) => {
                proof {
                    assert(fault(i as int) == Some(error@));
                    lemma_first_some_stays(
                        (i + 1) as nat,
                        plan.expected_targets@.len(),
                        fault,
                    );
                }
                return Err(error);
            },
            Ok(found) => {
                let ghost before = matches_of(evidence@);
                evidence.push(found);
                proof {
                    assert(fault(i as int) is None);
                    assert(matches_of(evidence@) =~= before.push(found@));
                    assert(told.take(i + 1) =~= told.take(i as int).push(told[i as int]));
                }
            },
        }
        i += 1;
    }
    assert(told.take(i as int) =~= told);
    Ok(evidence)
}

// ---------------------------------------------------------------------------
// Laws

/// A registry that is accepted reports every expected target, in order, as healthy
/// and with its expected bootstrap port.
pub proof fn law_accepted_registry_reports_every_target(
    response: JsonTree,
    plan: TargetRegistryPlan,
    i: int,
)
    requires
        registry_told(response, plan) is Ok,
        0 <= i < plan.expected_targets@.len(),
    ensures
        registry_told(response, plan)->Ok_0.len() == plan.expected_targets@.len(),
        registry_told(response, plan)->Ok_0[i].url == plan.expected_targets@[i].url@,
        registry_told(response, plan)->Ok_0[i].role == plan.expected_targets@[i].role@,
        registry_told(response, plan)->Ok_0[i].healthy,
        plan.expected_targets@[i].bootstrap_port is Some
            ==> registry_told(response, plan)->Ok_0[i].bootstrap_port
            == plan.expected_targets@[i].bootstrap_port,
{
    let entries = response.field(plan.targets_field@)->0->Array_0;
    let fault = targets_fault(entries, plan);
    crate::search::lemma_first_some_none(plan.expected_targets@.len(), fault);
    assert(fault(i) is None);
}

/// The entries that stand for a target are those of its URL and role.
proof fn lemma_standing(
    entries: Seq<JsonTree>,
    plan: TargetRegistryPlan,
    expected: TargetRegistryExpectedTarget,
)
    ensures
        forall|i: int|
            0 <= i < standing(entries, plan, expected).len() ==> exists|j: int|
                0 <= j < entries.len() && #[trigger] entries[j] == #[trigger] standing(
                    entries,
                    plan,
                    expected,
                )[i] && stands_for(entries[j], plan, expected),
        (exists|j: int| 0 <= j < entries.len() && stands_for(#[trigger] entries[j], plan, expected))
            <==> standing(entries, plan, expected).len() > 0,
        forall|a: int, b: int|
            0 <= a < b < entries.len() && stands_for(#[trigger] entries[a], plan, expected)
                && stands_for(#[trigger] entries[b], plan, expected) ==> standing(
                entries,
                plan,
                expected,
            ).len() > 1,
    decreases entries.len(),
{
    if entries.len() > 0 {
        let fewer = entries.drop_last();
        let before = standing(fewer, plan, expected);
        let all = standing(entries, plan, expected);
        lemma_standing(fewer, plan, expected);
        assert forall|i: int| 0 <= i < all.len() implies exists|j: int|
            0 <= j < entries.len() && #[trigger] entries[j] == #[trigger] all[i] && stands_for(
                entries[j],
                plan,
                expected,
            ) by {
            if i < before.len() {
                let j = choose|j: int|
                    0 <= j < fewer.len() && #[trigger] fewer[j] == before[i] && stands_for(
                        fewer[j],
                        plan,
                        expected,
                    );
                assert(entries[j] == all[i]);
            } else {
                assert(entries[entries.len() - 1] == all[i]);
            }
        }
        if exists|j: int|
            0 <= j < entries.len() && stands_for(#[trigger] entries[j], plan, expected) {
            let j = choose|j: int|
                0 <= j < entries.len() && stands_for(#[trigger] entries[j], plan, expected);
            if j < fewer.len() {
                assert(stands_for(fewer[j], plan, expected));
            }
        }
        assert forall|a: int, b: int|
            0 <= a < b < entries.len() && stands_for(#[trigger] entries[a], plan, expected)
                && stands_for(#[trigger] entries[b], plan, expected) implies all.len() > 1 by {
            assert(fewer[a] == entries[a]);
            if b < fewer.len() {
                assert(fewer[b] == entries[b]);
            } else {
                assert(stands_for(fewer[a], plan, expected));
            }
        }
    }
}

/// A target is accepted only where exactly one entry of the registry is of its URL and
/// role, and that entry says that it is healthy and names the expected bootstrap port.
pub proof fn law_accepted_target_has_one_healthy_entry(
    entries: Seq<JsonTree>,
    plan: TargetRegistryPlan,
    expected: TargetRegistryExpectedTarget,
) -> (i: int)
    requires
        target_told(entries, plan, expected) is Ok,
    ensures
        0 <= i < entries.len(),
        entries[i].field(plan.target_url_field@) == Some(JsonTree::Text(expected.url@)),
        entries[i].field(plan.target_role_field@) == Some(JsonTree::Text(expected.role@)),
        entries[i].field(plan.target_healthy_field@) == Some(JsonTree::Bool(true)),
        expected.bootstrap_port matches Some(port) ==> entries[i].field(
            plan.target_bootstrap_port_field@,
        ) == Some(JsonTree::Unsigned(port as u64)),
        forall|j: int|
            0 <= j < entries.len() && (#[trigger] entries[j]).field(plan.target_url_field@) == Some(
                JsonTree::Text(expected.url@),
            ) && entries[j].field(plan.target_role_field@) == Some(JsonTree::Text(expected.role@))
                ==> j == i,
{
    let found = standing(entries, plan, expected);
    lemma_standing(entries, plan, expected);
    let i = choose|i: int|
        0 <= i < entries.len() && #[trigger] entries[i] == found[0] && stands_for(
            entries[i],
            plan,
            expected,
        );
    assert forall|j: int|
        0 <= j < entries.len() && (#[trigger] entries[j]).field(plan.target_url_field@) == Some(
            JsonTree::Text(expected.url@),
        ) && entries[j].field(plan.target_role_field@) == Some(
            JsonTree::Text(expected.role@),
        ) implies j == i by {
        assert(stands_for(entries[j], plan, expected));
        if j < i {
            assert(stands_for(entries[j], plan, expected) && stands_for(entries[i], plan, expected));
        } else if i < j {
            assert(stands_for(entries[i], plan, expected) && stands_for(entries[j], plan, expected));
        }
    }
    i
}

/// A registry that holds one healthy entry for each expected target, with the port that
/// is expected of it, is accepted, whatever else it holds.
pub proof fn law_complete_registry_is_accepted(
    response: JsonTree,
    entries: Seq<JsonTree>,
    plan: TargetRegistryPlan,
)
    requires
        response.field(plan.targets_field@) == Some(JsonTree::Array(entries)),
        forall|k: int|
            0 <= k < plan.expected_targets@.len() ==> ({
                let found = standing(entries, plan, #[trigger] plan.expected_targets@[k]);
                &&& found.len() == 1
                &&& found[0].field(plan.target_healthy_field@) == Some(JsonTree::Bool(true))
                &&& found[0].field(plan.target_bootstrap_port_field@) == (
                match plan.expected_targets@[k].bootstrap_port {
                    Some(port) => Some(JsonTree::Unsigned(port as u64)),
                    None => None,
                })
            }),
    ensures
        registry_told(response, plan) is Ok,
{
    let f = targets_fault(entries, plan);
    crate::search::lemma_first_some_none(plan.expected_targets@.len(), f);
    assert forall|k: int| 0 <= k < plan.expected_targets@.len() implies #[trigger] f(k) is None by {
        assert(standing(entries, plan, plan.expected_targets@[k]).len() == 1);
    }
}

} // verus!
