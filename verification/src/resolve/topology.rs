//! The serving graph: validation of an integration's plan and its expansion
//! into processes.

use crate::error::{answers, invalid_config, or_fault, refuses, InferlabError};
use crate::protocol::{
    CaptureMechanism, CaptureWindowControlEndpoint, EndpointAssignment, EndpointRequirement,
    FrontendProcessRole, GatewayPlan, GatewayTarget, KvTransferMechanism, PdRouterPlan,
    PlanServeResult, RenderSource, ServeReplicaRequirement, ServeRoleInput, ServeRoleKind,
    ServeRoleLink, ServeRoleResult, ServeTopology, SyntheticAcceptanceInput,
    SyntheticAcceptanceOutcome,
};
use crate::search::{
    first_index, first_some, lemma_first_index, lemma_first_index_is, lemma_first_some_none,
    lemma_first_some_stays,
};
use crate::text::{
    cat2, cat3, cat4, cat5, cat6, cat7, count_text, debug, debug_optional, debug_optional_text,
    debug_text, decimal, list_contains, lists, occurrences, optional_text, same, to_decimal,
};
use vstd::prelude::*;
use vstd::string::*;

verus! {

// ---------------------------------------------------------------------------
// Public endpoints

/// The path of the completions route.
pub open spec fn completions_path() -> Seq<char> {
    "/v1/completions"@
}

/// The path of the chat-completions route.
pub open spec fn chat_completions_path() -> Seq<char> {
    "/v1/chat/completions"@
}

/// A character that an origin path may hold.
pub open spec fn origin_path_char(c: char) -> bool {
    &&& c != '?'
    &&& c != '#'
    &&& c != '\\'
    &&& c as int > 0x20
    &&& c as int != 0x7f
}

/// An absolute path without scheme, authority, query, fragment, backslash,
/// control character or white space.
pub open spec fn absolute_origin_path(path: Seq<char>) -> bool {
    &&& path.len() > 0 && path[0] == '/'
    &&& !(path.len() > 1 && path[1] == '/')
    &&& forall|i: int| 0 <= i < path.len() ==> origin_path_char(#[trigger] path[i])
}

/// Whether the path is an absolute origin path.
pub fn is_absolute_origin_path(path: &str) -> (r: bool)
    ensures
        r == absolute_origin_path(path@),
{
    let n: usize = path.unicode_len();
    if n == 0 || path.get_char(0) != '/' || (n > 1 && path.get_char(1) == '/') {
        return false;
    }
    let mut i: usize = 0;
    while i < n
        invariant
            n == path@.len(),
            i <= n,
            forall|j: int| 0 <= j < i ==> origin_path_char(#[trigger] path@[j]),
        decreases n - i,
    {
        let c = path.get_char(i);
        if c == '?' || c == '#' || c == '\\' || c as u32 <= 0x20 || c as u32 == 0x7f {
            assert(!origin_path_char(path@[i as int]));
            return false;
        }
        i += 1;
    }
    true
}

/// Why an endpoint cannot carry workloads.
pub open spec fn workload_endpoint_fault(
    integration: Seq<char>,
    endpoint: EndpointRequirement,
    declared_ports: Seq<String>,
) -> Option<Seq<char>> {
    let who = "integration "@ + debug_text(integration);
    if endpoint.completions_path@ != completions_path() {
        Some(
            who + " declared completions_path "@ + debug_text(endpoint.completions_path@)
                + "; expected "@ + debug_text(completions_path()),
        )
    } else if endpoint.chat_completions_path@ != chat_completions_path() {
        Some(
            who + " declared chat_completions_path "@ + debug_text(endpoint.chat_completions_path@)
                + "; expected "@ + debug_text(chat_completions_path()),
        )
    } else {
        match endpoint.server_metrics {
            None => None,
            Some(metrics) => if !absolute_origin_path(metrics.path@) {
                Some(
                    who + " declared server-metrics path "@ + debug_text(metrics.path@)
                        + "; expected an absolute origin path without scheme, authority, query, or fragment"@,
                )
            } else {
                match metrics.port {
                    None => None,
                    Some(port) => if port@.len() == 0 || occurrences(declared_ports, port@) != 1 {
                        Some(
                            who + " selected server-metrics port "@ + debug_text(port@)
                                + ", but the public process must declare that non-empty named port exactly once"@,
                        )
                    } else {
                        None
                    },
                }
            },
        }
    }
}

/// Refuses an endpoint that rebinds a workload route, or whose metrics are not
/// an origin path on a port that the public process declares once.
pub fn validate_workload_endpoint(
    integration: &str,
    endpoint: &EndpointRequirement,
    declared_ports: &[String],
) -> (r: Result<(), InferlabError>)
    ensures
        answers(r, workload_endpoint_fault(integration@, *endpoint, declared_ports@)),
{
    let who = cat2("integration ", debug(integration).as_str());
    if !same(endpoint.completions_path.as_str(), "/v1/completions") {
        return invalid_config(
            cat5(
                who.as_str(),
                " declared completions_path ",
                debug(endpoint.completions_path.as_str()).as_str(),
                "; expected ",
                debug("/v1/completions").as_str(),
            ),
        );
    }
    if !same(endpoint.chat_completions_path.as_str(), "/v1/chat/completions") {
        return invalid_config(
            cat5(
                who.as_str(),
                " declared chat_completions_path ",
                debug(endpoint.chat_completions_path.as_str()).as_str(),
                "; expected ",
                debug("/v1/chat/completions").as_str(),
            ),
        );
    }
    if let Some(metrics) = &endpoint.server_metrics {
        if !is_absolute_origin_path(metrics.path.as_str()) {
            return invalid_config(
                cat4(
                    who.as_str(),
                    " declared server-metrics path ",
                    debug(metrics.path.as_str()).as_str(),
                    "; expected an absolute origin path without scheme, authority, query, or fragment",
                ),
            );
        }
        if let Some(port) = &metrics.port {
            if port.as_str().is_empty() || count_text(declared_ports, port.as_str()) != 1 {
                return invalid_config(
                    cat4(
                        who.as_str(),
                        " selected server-metrics port ",
                        debug(port.as_str()).as_str(),
                        ", but the public process must declare that non-empty named port exactly once",
                    ),
                );
            }
        }
    }
    Ok(())
}


/// The URL of an endpoint.
pub open spec fn endpoint_url_text(endpoint: EndpointAssignment) -> Seq<char> {
    "http://"@ + endpoint.host@ + ":"@ + decimal(endpoint.port as nat)
}

/// The URL of an endpoint.
pub fn endpoint_url(endpoint: &EndpointAssignment) -> (r: String)
    ensures
        r@ == endpoint_url_text(*endpoint),
{
    cat4("http://", endpoint.host.as_str(), ":", to_decimal(endpoint.port as u64).as_str())
}

// ---------------------------------------------------------------------------
// Roles and replicas

/// The role at a position is named, counted and not a repetition.
pub open spec fn role_sound(roles: Seq<ServeRoleResult>, i: int) -> bool {
    &&& roles[i].id@.len() > 0
    &&& roles[i].declared_replica_count != 0
    &&& roles[i].effective_replica_count != 0
    &&& forall|j: int| 0 <= j < i ==> (#[trigger] roles[j]).id@ != roles[i].id@
}

/// Every role is named, counted and unique.
pub open spec fn roles_sound(roles: Seq<ServeRoleResult>) -> bool {
    forall|i: int| 0 <= i < roles.len() ==> #[trigger] role_sound(roles, i)
}

fn has_earlier_role(roles: &[ServeRoleResult], n: usize, id: &str) -> (r: bool)
    requires
        n <= roles@.len(),
    ensures
        r == exists|j: int| 0 <= j < n && (#[trigger] roles@[j]).id@ == id@,
{
    let mut j: usize = 0;
    while j < n
        invariant
            j <= n <= roles@.len(),
            forall|k: int| 0 <= k < j ==> (#[trigger] roles@[k]).id@ != id@,
        decreases n - j,
    {
        if same(roles[j].id.as_str(), id) {
            assert(roles@[j as int].id@ == id@);
            return true;
        }
        j += 1;
    }
    false
}

/// Whether every role is named, counted and unique.
fn check_roles_sound(roles: &[ServeRoleResult]) -> (r: bool)
    ensures
        r == roles_sound(roles@),
{
    let mut i: usize = 0;
    while i < roles.len()
        invariant
            i <= roles@.len(),
            forall|k: int| 0 <= k < i ==> #[trigger] role_sound(roles@, k),
        decreases roles@.len() - i,
    {
        let role = &roles[i];
        if role.id.as_str().is_empty() || role.declared_replica_count == 0
            || role.effective_replica_count == 0 || has_earlier_role(roles, i, role.id.as_str()) {
            assert(!role_sound(roles@, i as int));
            return false;
        }
        assert(role_sound(roles@, i as int));
        i += 1;
    }
    true
}

/// A planned role answers a requested one.
pub open spec fn role_answers(role: ServeRoleResult, requested: ServeRoleInput) -> bool {
    &&& role.id@ == requested.id@
    &&& role.kind == requested.kind
    &&& role.declared_replica_count == requested.replica_count
}

/// The plan holds an answer to the requested role.
pub open spec fn role_kept(roles: Seq<ServeRoleResult>, requested: ServeRoleInput) -> bool {
    exists|i: int| 0 <= i < roles.len() && role_answers(#[trigger] roles[i], requested)
}

/// The plan holds the requested roles and no other.
pub open spec fn role_set_kept(
    roles: Seq<ServeRoleResult>,
    requested: Seq<ServeRoleInput>,
) -> bool {
    &&& roles.len() == requested.len()
    &&& forall|k: int| 0 <= k < requested.len() ==> role_kept(roles, #[trigger] requested[k])
}

fn check_role_kept(roles: &[ServeRoleResult], requested: &ServeRoleInput) -> (r: bool)
    ensures
        r == role_kept(roles@, *requested),
{
    let mut i: usize = 0;
    while i < roles.len()
        invariant
            i <= roles@.len(),
            forall|j: int| 0 <= j < i ==> !role_answers(#[trigger] roles@[j], *requested),
        decreases roles@.len() - i,
    {
        if same(roles[i].id.as_str(), requested.id.as_str()) && roles[i].kind == requested.kind
            && roles[i].declared_replica_count == requested.replica_count {
            assert(role_answers(roles@[i as int], *requested));
            return true;
        }
        i += 1;
    }
    false
}

/// Whether the plan holds the requested roles and no other.
fn check_role_set(roles: &[ServeRoleResult], requested: &[ServeRoleInput]) -> (r: bool)
    ensures
        r == role_set_kept(roles@, requested@),
{
    if roles.len() != requested.len() {
        return false;
    }
    let mut k: usize = 0;
    while k < requested.len()
        invariant
            k <= requested@.len(),
            roles@.len() == requested@.len(),
            forall|j: int| 0 <= j < k ==> role_kept(roles@, #[trigger] requested@[j]),
        decreases requested@.len() - k,
    {
        if !check_role_kept(roles, &requested[k]) {
            assert(!role_kept(roles@, requested@[k as int]));
            return false;
        }
        k += 1;
    }
    true
}

/// The role has the id.
pub open spec fn role_is(roles: Seq<ServeRoleResult>, id: Seq<char>) -> spec_fn(int) -> bool {
    |i: int| roles[i].id@ == id
}

/// The first role with the id.
pub open spec fn role_index(roles: Seq<ServeRoleResult>, id: Seq<char>) -> Option<int> {
    first_index(roles.len(), role_is(roles, id))
}

/// The first role with the id.
pub fn find_role(roles: &[ServeRoleResult], id: &str) -> (r: Option<usize>)
    ensures
        match r {
            Some(i) => i < roles@.len() && role_index(roles@, id@) == Some(i as int),
            None => role_index(roles@, id@) is None,
        },
{
    let ghost p = role_is(roles@, id@);
    let mut i: usize = 0;
    while i < roles.len()
        invariant
            i <= roles@.len(),
            p == role_is(roles@, id@),
            forall|j: int| 0 <= j < i ==> !(#[trigger] p(j)),
        decreases roles@.len() - i,
    {
        if same(roles[i].id.as_str(), id) {
            proof {
                lemma_first_index_is(roles@.len(), p, i as int);
            }
            return Some(i);
        }
        assert(!p(i as int));
        i += 1;
    }
    proof {
        lemma_first_index(roles@.len(), p);
    }
    None
}

/// The replica at a position fits its role and repeats no earlier one.
pub open spec fn replica_sound(
    replicas: Seq<ServeReplicaRequirement>,
    i: int,
    replica_count: u32,
) -> bool {
    let replica = replicas[i];
    &&& replica.id@.len() > 0
    &&& replica.replica_index < replica_count
    &&& replica.device_count != 0
    &&& forall|j: int|
        0 <= j < i ==> (#[trigger] replicas[j]).id@ != replica.id@ && !(replicas[j].role_id@
            == replica.role_id@ && replicas[j].replica_index == replica.replica_index)
}

/// Why the replica at a position is refused.
pub open spec fn replica_fault(integration: Seq<char>, plan: PlanServeResult) -> spec_fn(
    int,
) -> Option<Seq<char>> {
    |i: int|
        {
            let replica = plan.replicas@[i];
            match role_index(plan.roles@, replica.role_id@) {
                None => Some(
                    "integration "@ + debug_text(integration) + " replica "@ + debug_text(replica.id@)
                        + " references unknown Engine role "@ + debug_text(replica.role_id@),
                ),
                Some(role) => if !replica_sound(
                    plan.replicas@,
                    i,
                    plan.roles@[role].effective_replica_count,
                ) {
                    Some(
                        "integration "@ + debug_text(integration)
                            + " returned an invalid or duplicate Engine replica"@,
                    )
                } else {
                    None
                },
            }
        }
}

fn check_replica_sound(
    replicas: &[ServeReplicaRequirement],
    i: usize,
    replica_count: u32,
) -> (r: bool)
    requires
        i < replicas@.len(),
    ensures
        r == replica_sound(replicas@, i as int, replica_count),
{
    let replica = &replicas[i];
    if replica.id.as_str().is_empty() || replica.replica_index >= replica_count
        || replica.device_count == 0 {
        return false;
    }
    let mut j: usize = 0;
    while j < i
        invariant
            j <= i < replicas@.len(),
            *replica == replicas@[i as int],
            forall|k: int|
                0 <= k < j ==> (#[trigger] replicas@[k]).id@ != replica.id@ && !(
                replicas@[k].role_id@ == replica.role_id@ && replicas@[k].replica_index
                    == replica.replica_index),
        decreases i - j,
    {
        if same(replicas[j].id.as_str(), replica.id.as_str()) || (same(
            replicas[j].role_id.as_str(),
            replica.role_id.as_str(),
        ) && replicas[j].replica_index == replica.replica_index) {
            assert(replicas@[j as int] == replicas[j as int]);
            return false;
        }
        j += 1;
    }
    true
}

/// Refuses a replica without a role, out of range, without devices, or repeated.
fn check_replicas(integration: &str, plan: &PlanServeResult) -> (r: Result<(), InferlabError>)
    ensures
        answers(r, first_some(plan.replicas@.len(), replica_fault(integration@, *plan))),
{
    let ghost f = replica_fault(integration@, *plan);
    let mut i: usize = 0;
    while i < plan.replicas.len()
        invariant
            i <= plan.replicas@.len(),
            f == replica_fault(integration@, *plan),
            first_some(i as nat, f) is None,
        decreases plan.replicas@.len() - i,
    {
        let replica = &plan.replicas[i];
        match find_role(plan.roles.as_slice(), replica.role_id.as_str()) {
            None => {
                proof {
                    lemma_first_some_stays((i + 1) as nat, plan.replicas@.len(), f);
                }
                return invalid_config(
                    cat6(
                        "integration ",
                        debug(integration).as_str(),
                        " replica ",
                        debug(replica.id.as_str()).as_str(),
                        " references unknown Engine role ",
                        debug(replica.role_id.as_str()).as_str(),
                    ),
                );
            },
            Some(role) => {
                if !check_replica_sound(
                    plan.replicas.as_slice(),
                    i,
                    plan.roles[role].effective_replica_count,
                ) {
                    proof {
                        lemma_first_some_stays((i + 1) as nat, plan.replicas@.len(), f);
                    }
                    return invalid_config(
                        cat3(
                            "integration ",
                            debug(integration).as_str(),
                            " returned an invalid or duplicate Engine replica",
                        ),
                    );
                }
            },
        }
        i += 1;
    }
    Ok(())
}

/// The plan holds the replica of the role with the index.
pub open spec fn replica_planned(
    replicas: Seq<ServeReplicaRequirement>,
    role: Seq<char>,
    index: int,
) -> bool {
    exists|k: int|
        0 <= k < replicas.len() && (#[trigger] replicas[k]).role_id@ == role
            && replicas[k].replica_index == index
}

/// The replica of the role with the index is missing.
pub open spec fn replica_missing(
    replicas: Seq<ServeReplicaRequirement>,
    role: Seq<char>,
) -> spec_fn(int) -> bool {
    |index: int| !replica_planned(replicas, role, index)
}

/// Why the replicas of the role at a position are incomplete.
pub open spec fn omission_fault(integration: Seq<char>, plan: PlanServeResult) -> spec_fn(
    int,
) -> Option<Seq<char>> {
    |i: int|
        {
            let role = plan.roles@[i];
            match first_index(
                role.effective_replica_count as nat,
                replica_missing(plan.replicas@, role.id@),
            ) {
                Some(index) => Some(
                    "integration "@ + debug_text(integration) + " omitted replica "@ + decimal(
                        index as nat,
                    ) + " for Engine role "@ + debug_text(role.id@),
                ),
                None => None,
            }
        }
}

fn check_replica_planned(
    replicas: &[ServeReplicaRequirement],
    role: &str,
    index: u32,
) -> (r: bool)
    ensures
        r == replica_planned(replicas@, role@, index as int),
{
    let mut k: usize = 0;
    while k < replicas.len()
        invariant
            k <= replicas@.len(),
            forall|j: int|
                0 <= j < k ==> !((#[trigger] replicas@[j]).role_id@ == role@
                    && replicas@[j].replica_index == index),
        decreases replicas@.len() - k,
    {
        if same(replicas[k].role_id.as_str(), role) && replicas[k].replica_index == index {
            assert(replicas@[k as int].role_id@ == role@);
            return true;
        }
        k += 1;
    }
    false
}

fn first_missing_replica(
    replicas: &[ServeReplicaRequirement],
    role: &str,
    count: u32,
) -> (r: Option<u32>)
    ensures
        match r {
            Some(index) => first_index(count as nat, replica_missing(replicas@, role@)) == Some(
                index as int,
            ),
            None => first_index(count as nat, replica_missing(replicas@, role@)) is None,
        },
{
    let ghost p = replica_missing(replicas@, role@);
    let mut index: u32 = 0;
    while index < count
        invariant
            index <= count,
            p == replica_missing(replicas@, role@),
            forall|j: int| 0 <= j < index ==> !(#[trigger] p(j)),
        decreases count - index,
    {
        if !check_replica_planned(replicas, role, index) {
            proof {
                lemma_first_index_is(count as nat, p, index as int);
            }
            return Some(index);
        }
        assert(!p(index as int));
        index += 1;
    }
    proof {
        lemma_first_index(count as nat, p);
    }
    None
}

/// Refuses a plan in which a role lacks one of its replicas.
fn check_omissions(integration: &str, plan: &PlanServeResult) -> (r: Result<(), InferlabError>)
    ensures
        answers(r, first_some(plan.roles@.len(), omission_fault(integration@, *plan))),
{
    let ghost f = omission_fault(integration@, *plan);
    let mut i: usize = 0;
    while i < plan.roles.len()
        invariant
            i <= plan.roles@.len(),
            f == omission_fault(integration@, *plan),
            first_some(i as nat, f) is None,
        decreases plan.roles@.len() - i,
    {
        let role = &plan.roles[i];
        if let Some(index) = first_missing_replica(
            plan.replicas.as_slice(),
            role.id.as_str(),
            role.effective_replica_count,
        ) {
            proof {
                lemma_first_some_stays((i + 1) as nat, plan.roles@.len(), f);
            }
            return invalid_config(
                cat6(
                    "integration ",
                    debug(integration).as_str(),
                    " omitted replica ",
                    to_decimal(index as u64).as_str(),
                    " for Engine role ",
                    debug(role.id.as_str()).as_str(),
                ),
            );
        }
        i += 1;
    }
    Ok(())
}

// ---------------------------------------------------------------------------
// Frontends

/// The role serves on its own.
pub open spec fn role_serves(roles: Seq<ServeRoleResult>) -> spec_fn(int) -> bool {
    |i: int| roles[i].kind == ServeRoleKind::Serve
}

/// The first role that serves on its own.
pub open spec fn serve_index(roles: Seq<ServeRoleResult>) -> Option<int> {
    first_index(roles.len(), role_serves(roles))
}

fn find_serve(roles: &[ServeRoleResult]) -> (r: Option<usize>)
    ensures
        match r {
            Some(i) => i < roles@.len() && serve_index(roles@) == Some(i as int),
            None => serve_index(roles@) is None,
        },
{
    let ghost p = role_serves(roles@);
    let mut i: usize = 0;
    while i < roles.len()
        invariant
            i <= roles@.len(),
            p == role_serves(roles@),
            forall|j: int| 0 <= j < i ==> !(#[trigger] p(j)),
        decreases roles@.len() - i,
    {
        if roles[i].kind == ServeRoleKind::Serve {
            proof {
                lemma_first_index_is(roles@.len(), p, i as int);
            }
            return Some(i);
        }
        assert(!p(i as int));
        i += 1;
    }
    proof {
        lemma_first_index(roles@.len(), p);
    }
    None
}

/// The role has an endpoint of its own for clients.
pub open spec fn role_public(roles: Seq<ServeRoleResult>) -> spec_fn(int) -> bool {
    |i: int| roles[i].public_endpoint is Some
}

/// The first role with an endpoint of its own for clients.
pub open spec fn public_index(roles: Seq<ServeRoleResult>) -> Option<int> {
    first_index(roles.len(), role_public(roles))
}

/// The first role with an endpoint of its own for clients.
pub fn find_public(roles: &[ServeRoleResult]) -> (r: Option<usize>)
    ensures
        match r {
            Some(i) => i < roles@.len() && public_index(roles@) == Some(i as int)
                && roles@[i as int].public_endpoint is Some,
            None => public_index(roles@) is None,
        },
{
    let ghost p = role_public(roles@);
    let mut i: usize = 0;
    while i < roles.len()
        invariant
            i <= roles@.len(),
            p == role_public(roles@),
            forall|j: int| 0 <= j < i ==> !(#[trigger] p(j)),
        decreases roles@.len() - i,
    {
        if roles[i].public_endpoint.is_some() {
            proof {
                lemma_first_index_is(roles@.len(), p, i as int);
            }
            return Some(i);
        }
        assert(!p(i as int));
        i += 1;
    }
    proof {
        lemma_first_index(roles@.len(), p);
    }
    None
}

/// No role has an endpoint of its own for clients.
pub open spec fn none_public(roles: Seq<ServeRoleResult>) -> bool {
    forall|i: int| 0 <= i < roles.len() ==> (#[trigger] roles[i]).public_endpoint is None
}

fn check_none_public(roles: &[ServeRoleResult]) -> (r: bool)
    ensures
        r == none_public(roles@),
{
    let found = find_public(roles);
    proof {
        lemma_first_index(roles@.len(), role_public(roles@));
        if found is None {
            assert forall|i: int| 0 <= i < roles@.len() implies (#[trigger] roles@[i]).public_endpoint is None by {
                assert(!role_public(roles@)(i));
            }
        }
    }
    found.is_none()
}

/// Exactly the given role has an endpoint of its own for clients.
pub open spec fn only_public(roles: Seq<ServeRoleResult>, serve: int) -> bool {
    forall|i: int|
        0 <= i < roles.len() ==> ((#[trigger] roles[i]).public_endpoint is Some <==> i == serve)
}

fn check_only_public(roles: &[ServeRoleResult], serve: usize) -> (r: bool)
    ensures
        r == only_public(roles@, serve as int),
{
    let mut i: usize = 0;
    while i < roles.len()
        invariant
            i <= roles@.len(),
            forall|j: int|
                0 <= j < i ==> ((#[trigger] roles@[j]).public_endpoint is Some <==> j == serve),
        decreases roles@.len() - i,
    {
        if roles[i].public_endpoint.is_some() != (i == serve) {
            assert(roles@[i as int].public_endpoint is Some != (i == serve));
            return false;
        }
        i += 1;
    }
    true
}

/// The gateway forwards to exactly the given engine role.
pub open spec fn targets_engine(gateway: GatewayPlan, id: Seq<char>) -> bool {
    gateway.targets@.len() == 1 && (gateway.targets@[0] matches GatewayTarget::Engine { role }
        && role@ == id)
}

/// The gateway forwards to exactly the router.
pub open spec fn targets_router(gateway: GatewayPlan) -> bool {
    gateway.targets@.len() == 1 && gateway.targets@[0] is PdRouter
}

fn check_targets_engine(gateway: &GatewayPlan, id: &str) -> (r: bool)
    ensures
        r == targets_engine(*gateway, id@),
{
    gateway.targets.len() == 1 && match &gateway.targets[0] {
        GatewayTarget::Engine { role } => same(role.as_str(), id),
        GatewayTarget::PdRouter => false,
    }
}

fn check_targets_router(gateway: &GatewayPlan) -> (r: bool)
    ensures
        r == targets_router(*gateway),
{
    gateway.targets.len() == 1 && match &gateway.targets[0] {
        GatewayTarget::Engine { .. } => false,
        GatewayTarget::PdRouter => true,
    }
}

/// The routed form of a single server is coherent.
pub open spec fn routed_single(plan: PlanServeResult, gateway: GatewayPlan, serve: int) -> bool {
    &&& gateway.render_source == RenderSource::Integration
    &&& none_public(plan.roles@)
    &&& targets_engine(gateway, plan.roles@[serve].id@)
}

/// Why the frontend of a single server is refused.
pub open spec fn single_fault(
    integration: Seq<char>,
    gateway_backend: Option<Seq<char>>,
    pd_router_backend: Option<Seq<char>>,
    plan: PlanServeResult,
) -> Option<Seq<char>> {
    let who = "integration "@ + debug_text(integration);
    if plan.pd_router is Some || pd_router_backend is Some {
        Some(who + " returned a P/D Router for single topology"@)
    } else {
        match serve_index(plan.roles@) {
            None => Some(who + " did not return the single Engine role"@),
            Some(serve) => match (gateway_backend, plan.gateway) {
                (None, None) => if only_public(plan.roles@, serve) {
                    None
                } else {
                    Some(who + " direct single must expose exactly one Engine endpoint"@)
                },
                (Some(selected), Some(gateway)) => if gateway.backend@ != selected {
                    Some(
                        who + " Gateway plan does not match selected gateway_backend "@
                            + debug_optional_text(gateway_backend),
                    )
                } else if routed_single(plan, gateway, serve) {
                    None
                } else {
                    Some(who + " returned an incompatible routed-single Gateway"@)
                },
                _ => Some(
                    who + " Gateway plan does not match selected gateway_backend "@
                        + debug_optional_text(gateway_backend),
                ),
            },
        }
    }
}

fn check_single(
    integration: &str,
    gateway_backend: Option<&str>,
    pd_router_backend: Option<&str>,
    plan: &PlanServeResult,
) -> (r: Result<(), InferlabError>)
    ensures
        answers(
            r,
            single_fault(
                integration@,
                optional_text(gateway_backend),
                optional_text(pd_router_backend),
                *plan,
            ),
        ),
{
    let who = cat2("integration ", debug(integration).as_str());
    if plan.pd_router.is_some() || pd_router_backend.is_some() {
        return invalid_config(cat2(who.as_str(), " returned a P/D Router for single topology"));
    }
    let serve: usize = match find_serve(plan.roles.as_slice()) {
        None => {
            return invalid_config(cat2(who.as_str(), " did not return the single Engine role"));
        },
        Some(serve) => serve,
    };
    match (gateway_backend, &plan.gateway) {
        (None, None) => {
            if check_only_public(plan.roles.as_slice(), serve) {
                Ok(())
            } else {
                invalid_config(
                    cat2(who.as_str(), " direct single must expose exactly one Engine endpoint"),
                )
            }
        },
        (Some(selected), Some(gateway)) => {
            if !same(gateway.backend.as_str(), selected) {
                return invalid_config(
                    cat3(
                        who.as_str(),
                        " Gateway plan does not match selected gateway_backend ",
                        debug_optional(gateway_backend).as_str(),
                    ),
                );
            }
            if gateway.render_source == RenderSource::Integration && check_none_public(
                plan.roles.as_slice(),
            ) && check_targets_engine(gateway, plan.roles[serve].id.as_str()) {
                Ok(())
            } else {
                invalid_config(
                    cat2(who.as_str(), " returned an incompatible routed-single Gateway"),
                )
            }
        },
        _ => invalid_config(
            cat3(
                who.as_str(),
                " Gateway plan does not match selected gateway_backend ",
                debug_optional(gateway_backend).as_str(),
            ),
        ),
    }
}

/// The role with the id is of the kind.
pub open spec fn role_kind_is(
    roles: Seq<ServeRoleResult>,
    id: Seq<char>,
    kind: ServeRoleKind,
) -> bool {
    match role_index(roles, id) {
        Some(i) => roles[i].kind == kind,
        None => false,
    }
}

fn check_role_kind(roles: &[ServeRoleResult], id: &str, kind: ServeRoleKind) -> (r: bool)
    ensures
        r == role_kind_is(roles@, id@, kind),
{
    match find_role(roles, id) {
        Some(i) => roles[i].kind == kind,
        None => false,
    }
}

/// Gateway and router are two components of one fused frontend.
pub open spec fn fused(plan: PlanServeResult, gateway: GatewayPlan, pd_router: PdRouterPlan) -> bool {
    &&& gateway.render_source == pd_router.render_source
    &&& gateway.implementation@ == pd_router.implementation@
    &&& gateway.implementation_version@ == pd_router.implementation_version@
    &&& gateway.co_rendering.process_role == FrontendProcessRole::Gateway
    &&& gateway.co_rendering == pd_router.co_rendering
    &&& none_public(plan.roles@)
    &&& targets_router(gateway)
    &&& role_kind_is(plan.roles@, pd_router.prefill_role@, ServeRoleKind::Prefill)
    &&& role_kind_is(plan.roles@, pd_router.decode_role@, ServeRoleKind::Decode)
}

/// Why the frontend of a prefill/decode server is refused.
pub open spec fn prefill_decode_fault(
    integration: Seq<char>,
    gateway_backend: Option<Seq<char>>,
    pd_router_backend: Option<Seq<char>>,
    plan: PlanServeResult,
) -> Option<Seq<char>> {
    let who = "integration "@ + debug_text(integration);
    match plan.gateway {
        None => Some(who + " did not return a Gateway for prefill_decode"@),
        Some(gateway) => match plan.pd_router {
            None => Some(who + " did not return a P/D Router for prefill_decode"@),
            Some(pd_router) => if Some(gateway.backend@) != gateway_backend || Some(
                pd_router.backend@,
            ) != pd_router_backend {
                Some(
                    who + " frontend backends do not match gateway_backend "@ + debug_optional_text(
                        gateway_backend,
                    ) + " and pd_router_backend "@ + debug_optional_text(pd_router_backend),
                )
            } else if !fused(plan, gateway, pd_router) {
                Some(who + " returned incompatible fused frontend component plans"@)
            } else {
                None
            },
        },
    }
}

fn selects(selected: Option<&str>, backend: &str) -> (r: bool)
    ensures
        r == (Some(backend@) == optional_text(selected)),
{
    match selected {
        Some(name) => same(backend, name),
        None => false,
    }
}

fn check_prefill_decode(
    integration: &str,
    gateway_backend: Option<&str>,
    pd_router_backend: Option<&str>,
    plan: &PlanServeResult,
) -> (r: Result<(), InferlabError>)
    ensures
        answers(
            r,
            prefill_decode_fault(
                integration@,
                optional_text(gateway_backend),
                optional_text(pd_router_backend),
                *plan,
            ),
        ),
{
    let who = cat2("integration ", debug(integration).as_str());
    let gateway = match &plan.gateway {
        None => {
            return invalid_config(
                cat2(who.as_str(), " did not return a Gateway for prefill_decode"),
            );
        },
        Some(gateway) => gateway,
    };
    let pd_router = match &plan.pd_router {
        None => {
            return invalid_config(
                cat2(who.as_str(), " did not return a P/D Router for prefill_decode"),
            );
        },
        Some(pd_router) => pd_router,
    };
    if !selects(gateway_backend, gateway.backend.as_str()) || !selects(
        pd_router_backend,
        pd_router.backend.as_str(),
    ) {
        return invalid_config(
            cat5(
                who.as_str(),
                " frontend backends do not match gateway_backend ",
                debug_optional(gateway_backend).as_str(),
                " and pd_router_backend ",
                debug_optional(pd_router_backend).as_str(),
            ),
        );
    }
    if gateway.render_source == pd_router.render_source && same(
        gateway.implementation.as_str(),
        pd_router.implementation.as_str(),
    ) && same(
        gateway.implementation_version.as_str(),
        pd_router.implementation_version.as_str(),
    ) && gateway.co_rendering.process_role == FrontendProcessRole::Gateway && gateway.co_rendering
        == pd_router.co_rendering && check_none_public(plan.roles.as_slice())
        && check_targets_router(gateway) && check_role_kind(
        plan.roles.as_slice(),
        pd_router.prefill_role.as_str(),
        ServeRoleKind::Prefill,
    ) && check_role_kind(
        plan.roles.as_slice(),
        pd_router.decode_role.as_str(),
        ServeRoleKind::Decode,
    ) {
        Ok(())
    } else {
        invalid_config(
            cat2(who.as_str(), " returned incompatible fused frontend component plans"),
        )
    }
}

// ---------------------------------------------------------------------------
// The public endpoint

/// The endpoint that clients use, where the plan has one.
pub open spec fn public_endpoint_of(
    topology: ServeTopology,
    plan: PlanServeResult,
) -> Option<EndpointRequirement> {
    match plan.gateway {
        Some(gateway) => Some(gateway.endpoint),
        None => if topology == ServeTopology::Single {
            match public_index(plan.roles@) {
                Some(i) => plan.roles@[i].public_endpoint,
                None => None,
            }
        } else {
            None
        },
    }
}

/// Why there is no endpoint for clients.
pub open spec fn no_public_endpoint(integration: Seq<char>, topology: ServeTopology) -> Seq<char> {
    if topology == ServeTopology::Single {
        "integration "@ + debug_text(integration)
            + " did not declare a direct Engine public endpoint"@
    } else {
        "integration "@ + debug_text(integration) + " did not declare a Gateway public endpoint"@
    }
}

/// The endpoint that clients use: the gateway's, or that of a single engine.
pub fn public_endpoint_requirement<'a>(
    integration: &str,
    topology: ServeTopology,
    plan: &'a PlanServeResult,
) -> (r: Result<&'a EndpointRequirement, InferlabError>)
    ensures
        match public_endpoint_of(topology, *plan) {
            Some(endpoint) => r == Ok::<&EndpointRequirement, InferlabError>(&endpoint),
            None => refuses(r, no_public_endpoint(integration@, topology)),
        },
{
    if let Some(gateway) = &plan.gateway {
        return Ok(&gateway.endpoint);
    }
    if topology == ServeTopology::Single {
        if let Some(i) = find_public(plan.roles.as_slice()) {
            if let Some(endpoint) = &plan.roles[i].public_endpoint {
                return Ok(endpoint);
            }
        }
        return invalid_config(
            cat3(
                "integration ",
                debug(integration).as_str(),
                " did not declare a direct Engine public endpoint",
            ),
        );
    }
    invalid_config(
        cat3(
            "integration ",
            debug(integration).as_str(),
            " did not declare a Gateway public endpoint",
        ),
    )
}

/// The first replica of the role.
pub open spec fn entry_replica(
    replicas: Seq<ServeReplicaRequirement>,
    role: Seq<char>,
) -> spec_fn(int) -> bool {
    |i: int| replicas[i].role_id@ == role && replicas[i].replica_index == 0
}

/// The named ports that the public process declares, where the plan has one.
pub open spec fn public_ports_of(topology: ServeTopology, plan: PlanServeResult) -> Option<
    Seq<String>,
> {
    match plan.gateway {
        Some(gateway) => Some(gateway.ports@),
        None => if topology == ServeTopology::Single {
            match public_index(plan.roles@) {
                Some(i) => match first_index(
                    plan.replicas@.len(),
                    entry_replica(plan.replicas@, plan.roles@[i].id@),
                ) {
                    Some(k) => Some(plan.replicas@[k].ports@),
                    None => None,
                },
                None => None,
            }
        } else {
            None
        },
    }
}

/// Why the ports of the public process are not known.
pub open spec fn no_public_ports(
    integration: Seq<char>,
    topology: ServeTopology,
    plan: PlanServeResult,
) -> Seq<char> {
    if topology == ServeTopology::Single && public_index(plan.roles@) is Some {
        "integration "@ + debug_text(integration) + " did not declare the public Engine replica"@
    } else {
        no_public_endpoint(integration, topology)
    }
}

fn find_entry_replica(replicas: &[ServeReplicaRequirement], role: &str) -> (r: Option<usize>)
    ensures
        match r {
            Some(i) => i < replicas@.len() && first_index(
                replicas@.len(),
                entry_replica(replicas@, role@),
            ) == Some(i as int),
            None => first_index(replicas@.len(), entry_replica(replicas@, role@)) is None,
        },
{
    let ghost p = entry_replica(replicas@, role@);
    let mut i: usize = 0;
    while i < replicas.len()
        invariant
            i <= replicas@.len(),
            p == entry_replica(replicas@, role@),
            forall|j: int| 0 <= j < i ==> !(#[trigger] p(j)),
        decreases replicas@.len() - i,
    {
        if same(replicas[i].role_id.as_str(), role) && replicas[i].replica_index == 0 {
            proof {
                lemma_first_index_is(replicas@.len(), p, i as int);
            }
            return Some(i);
        }
        assert(!p(i as int));
        i += 1;
    }
    proof {
        lemma_first_index(replicas@.len(), p);
    }
    None
}

/// The named ports that the public process declares.
pub fn public_endpoint_ports<'a>(
    integration: &str,
    topology: ServeTopology,
    plan: &'a PlanServeResult,
) -> (r: Result<&'a [String], InferlabError>)
    ensures
        match public_ports_of(topology, *plan) {
            Some(ports) => r is Ok && r->Ok_0@ == ports,
            None => refuses(r, no_public_ports(integration@, topology, *plan)),
        },
{
    if let Some(gateway) = &plan.gateway {
        return Ok(gateway.ports.as_slice());
    }
    if topology == ServeTopology::Single {
        match find_public(plan.roles.as_slice()) {
            None => {
                return invalid_config(
                    cat3(
                        "integration ",
                        debug(integration).as_str(),
                        " did not declare a direct Engine public endpoint",
                    ),
                );
            },
            Some(i) => {
                return match find_entry_replica(
                    plan.replicas.as_slice(),
                    plan.roles[i].id.as_str(),
                ) {
                    Some(k) => Ok(plan.replicas[k].ports.as_slice()),
                    None => invalid_config(
                        cat3(
                            "integration ",
                            debug(integration).as_str(),
                            " did not declare the public Engine replica",
                        ),
                    ),
                };
            },
        }
    }
    invalid_config(
        cat3(
            "integration ",
            debug(integration).as_str(),
            " did not declare a Gateway public endpoint",
        ),
    )
}

// ---------------------------------------------------------------------------
// Links

/// The role has a replica, and each of its replicas declares the port.
pub open spec fn all_have_port(
    replicas: Seq<ServeReplicaRequirement>,
    role: Seq<char>,
    port: Seq<char>,
) -> bool {
    &&& exists|i: int| 0 <= i < replicas.len() && (#[trigger] replicas[i]).role_id@ == role
    &&& forall|i: int|
        0 <= i < replicas.len() && (#[trigger] replicas[i]).role_id@ == role ==> lists(
            replicas[i].ports@,
            port,
        )
}

/// Whether the role has a replica and each of its replicas declares the port.
pub fn role_all_have_port(replicas: &[ServeReplicaRequirement], role: &str, port: &str) -> (r: bool)
    ensures
        r == all_have_port(replicas@, role@, port@),
{
    let mut found = false;
    let mut i: usize = 0;
    while i < replicas.len()
        invariant
            i <= replicas@.len(),
            found == exists|j: int| 0 <= j < i && (#[trigger] replicas@[j]).role_id@ == role@,
            forall|j: int|
                0 <= j < i && (#[trigger] replicas@[j]).role_id@ == role@ ==> lists(
                    replicas@[j].ports@,
                    port@,
                ),
        decreases replicas@.len() - i,
    {
        if same(replicas[i].role_id.as_str(), role) {
            assert(replicas@[i as int].role_id@ == role@);
            found = true;
            if !list_contains(replicas[i].ports.as_slice(), port) {
                return false;
            }
        }
        i += 1;
    }
    found
}

/// The name is that of a component or an engine role of the graph.
pub open spec fn graph_node(topology: ServeTopology, plan: PlanServeResult, name: Seq<char>) -> bool {
    ||| role_index(plan.roles@, name) is Some
    ||| name == "gateway"@ && plan.gateway is Some
    ||| name == "pd_router"@ && topology == ServeTopology::PrefillDecode
}

fn check_graph_node(topology: ServeTopology, plan: &PlanServeResult, name: &str) -> (r: bool)
    ensures
        r == graph_node(topology, *plan, name@),
{
    find_role(plan.roles.as_slice(), name).is_some() || (same(name, "gateway")
        && plan.gateway.is_some()) || (same(name, "pd_router") && topology
        == ServeTopology::PrefillDecode)
}

/// Every name of the list is a node of the graph.
pub open spec fn graph_nodes(
    topology: ServeTopology,
    plan: PlanServeResult,
    names: Seq<String>,
) -> bool {
    forall|i: int| 0 <= i < names.len() ==> graph_node(topology, plan, (#[trigger] names[i])@)
}

fn check_graph_nodes(topology: ServeTopology, plan: &PlanServeResult, names: &[String]) -> (r: bool)
    ensures
        r == graph_nodes(topology, *plan, names@),
{
    let mut i: usize = 0;
    while i < names.len()
        invariant
            i <= names@.len(),
            forall|j: int| 0 <= j < i ==> graph_node(topology, *plan, (#[trigger] names@[j])@),
        decreases names@.len() - i,
    {
        if !check_graph_node(topology, plan, names[i].as_str()) {
            assert(!graph_node(topology, *plan, names@[i as int]@));
            return false;
        }
        i += 1;
    }
    true
}

/// The link connects nodes of the graph over ports and mechanisms that exist.
pub open spec fn link_valid(
    topology: ServeTopology,
    kv_transfer: Option<KvTransferMechanism>,
    plan: PlanServeResult,
    link: ServeRoleLink,
) -> bool {
    match link {
        ServeRoleLink::RequestRouting { source, targets } => {
            &&& graph_node(topology, plan, source@)
            &&& targets@.len() > 0
            &&& graph_nodes(topology, plan, targets@)
        },
        ServeRoleLink::KvTransfer { source, target, mechanism } => {
            &&& graph_node(topology, plan, source@)
            &&& graph_node(topology, plan, target@)
            &&& Some(mechanism) == kv_transfer
        },
        ServeRoleLink::Bootstrap { source, target, port } => {
            &&& graph_node(topology, plan, source@)
            &&& graph_node(topology, plan, target@)
            &&& all_have_port(plan.replicas@, target@, port@)
        },
        ServeRoleLink::SideChannel { source, target, port } => {
            &&& graph_node(topology, plan, source@)
            &&& graph_node(topology, plan, target@)
            &&& all_have_port(plan.replicas@, source@, port@)
            &&& all_have_port(plan.replicas@, target@, port@)
        },
    }
}

fn uses_mechanism(mechanism: KvTransferMechanism, kv_transfer: Option<KvTransferMechanism>) -> (r:
    bool)
    ensures
        r == (Some(mechanism) == kv_transfer),
{
    match kv_transfer {
        Some(selected) => selected == mechanism,
        None => false,
    }
}

fn check_link_valid(
    topology: ServeTopology,
    kv_transfer: Option<KvTransferMechanism>,
    plan: &PlanServeResult,
    link: &ServeRoleLink,
) -> (r: bool)
    ensures
        r == link_valid(topology, kv_transfer, *plan, *link),
{
    match link {
        ServeRoleLink::RequestRouting { source, targets } => check_graph_node(
            topology,
            plan,
            source.as_str(),
        ) && targets.len() > 0 && check_graph_nodes(topology, plan, targets.as_slice()),
        ServeRoleLink::KvTransfer { source, target, mechanism } => check_graph_node(
            topology,
            plan,
            source.as_str(),
        ) && check_graph_node(topology, plan, target.as_str()) && uses_mechanism(
            *mechanism,
            kv_transfer,
        ),
        ServeRoleLink::Bootstrap { source, target, port } => check_graph_node(
            topology,
            plan,
            source.as_str(),
        ) && check_graph_node(topology, plan, target.as_str()) && role_all_have_port(
            plan.replicas.as_slice(),
            target.as_str(),
            port.as_str(),
        ),
        ServeRoleLink::SideChannel { source, target, port } => check_graph_node(
            topology,
            plan,
            source.as_str(),
        ) && check_graph_node(topology, plan, target.as_str()) && role_all_have_port(
            plan.replicas.as_slice(),
            source.as_str(),
            port.as_str(),
        ) && role_all_have_port(plan.replicas.as_slice(), target.as_str(), port.as_str()),
    }
}

/// A link that the graph needs.
pub enum Need {
    /// Key-value blocks move by the mechanism.
    Mechanism { mechanism: KvTransferMechanism },
    /// The source routes to exactly one target.
    RouteOnly { source: Seq<char>, target: Seq<char> },
    /// The source routes to both targets, perhaps among others.
    RouteBoth { source: Seq<char>, first: Seq<char>, second: Seq<char> },
    /// Key-value blocks move from source to target by the mechanism.
    Transfer { source: Seq<char>, target: Seq<char>, mechanism: KvTransferMechanism },
    /// The source bootstraps the target over a port that its replicas declare.
    Bootstrap { source: Seq<char>, target: Seq<char> },
    /// Source and target share a port that the replicas of both declare.
    SideChannel { source: Seq<char>, target: Seq<char> },
    /// A transport that does not run in band.
    OutOfBand,
}

/// A link that the graph needs.
#[derive(Clone, Copy)]
enum LinkNeed<'a> {
    Mechanism { mechanism: KvTransferMechanism },
    RouteOnly { source: &'a str, target: &'a str },
    RouteBoth { source: &'a str, first: &'a str, second: &'a str },
    Transfer { source: &'a str, target: &'a str, mechanism: KvTransferMechanism },
    Bootstrap { source: &'a str, target: &'a str },
    SideChannel { source: &'a str, target: &'a str },
    OutOfBand,
}

impl<'a> View for LinkNeed<'a> {
    type V = Need;

    closed spec fn view(&self) -> Need {
        match *self {
            LinkNeed::Mechanism { mechanism } => Need::Mechanism { mechanism },
            LinkNeed::RouteOnly { source, target } => Need::RouteOnly {
                source: source@,
                target: target@,
            },
            LinkNeed::RouteBoth { source, first, second } => Need::RouteBoth {
                source: source@,
                first: first@,
                second: second@,
            },
            LinkNeed::Transfer { source, target, mechanism } => Need::Transfer {
                source: source@,
                target: target@,
                mechanism,
            },
            LinkNeed::Bootstrap { source, target } => Need::Bootstrap {
                source: source@,
                target: target@,
            },
            LinkNeed::SideChannel { source, target } => Need::SideChannel {
                source: source@,
                target: target@,
            },
            LinkNeed::OutOfBand => Need::OutOfBand,
        }
    }
}

/// The link meets the need.
pub open spec fn link_meets(
    replicas: Seq<ServeReplicaRequirement>,
    link: ServeRoleLink,
    need: Need,
) -> bool {
    match need {
        Need::Mechanism { mechanism } => link matches ServeRoleLink::KvTransfer {
            mechanism: used,
            ..
        } && used == mechanism,
        Need::RouteOnly { source, target } => link matches ServeRoleLink::RequestRouting {
            source: from,
            targets,
        } && from@ == source && targets@.len() == 1 && targets@[0]@ == target,
        Need::RouteBoth { source, first, second } => link matches ServeRoleLink::RequestRouting {
            source: from,
            targets,
        } && from@ == source && lists(targets@, first) && lists(targets@, second),
        Need::Transfer { source, target, mechanism } => link matches ServeRoleLink::KvTransfer {
            source: from,
            target: to,
            mechanism: used,
        } && from@ == source && to@ == target && used == mechanism,
        Need::Bootstrap { source, target } => link matches ServeRoleLink::Bootstrap {
            source: from,
            target: to,
            port,
        } && from@ == source && to@ == target && all_have_port(replicas, target, port@),
        Need::SideChannel { source, target } => link matches ServeRoleLink::SideChannel {
            source: from,
            target: to,
            port,
        } && from@ == source && to@ == target && all_have_port(replicas, source, port@)
            && all_have_port(replicas, target, port@),
        Need::OutOfBand => link is Bootstrap || link is SideChannel,
    }
}

fn check_link_meets(
    replicas: &[ServeReplicaRequirement],
    link: &ServeRoleLink,
    need: LinkNeed,
) -> (r: bool)
    ensures
        r == link_meets(replicas@, *link, need@),
{
    match need {
        LinkNeed::Mechanism { mechanism } => match link {
            ServeRoleLink::KvTransfer { mechanism: used, .. } => *used == mechanism,
            _ => false,
        },
        LinkNeed::RouteOnly { source, target } => match link {
            ServeRoleLink::RequestRouting { source: from, targets } => same(from.as_str(), source)
                && targets.len() == 1 && same(targets[0].as_str(), target),
            _ => false,
        },
        LinkNeed::RouteBoth { source, first, second } => match link {
            ServeRoleLink::RequestRouting { source: from, targets } => same(from.as_str(), source)
                && list_contains(targets.as_slice(), first) && list_contains(
                targets.as_slice(),
                second,
            ),
            _ => false,
        },
        LinkNeed::Transfer { source, target, mechanism } => match link {
            ServeRoleLink::KvTransfer { source: from, target: to, mechanism: used } => same(
                from.as_str(),
                source,
            ) && same(to.as_str(), target) && *used == mechanism,
            _ => false,
        },
        LinkNeed::Bootstrap { source, target } => match link {
            ServeRoleLink::Bootstrap { source: from, target: to, port } => same(
                from.as_str(),
                source,
            ) && same(to.as_str(), target) && role_all_have_port(replicas, target, port.as_str()),
            _ => false,
        },
        LinkNeed::SideChannel { source, target } => match link {
            ServeRoleLink::SideChannel { source: from, target: to, port } => same(
                from.as_str(),
                source,
            ) && same(to.as_str(), target) && role_all_have_port(replicas, source, port.as_str())
                && role_all_have_port(replicas, target, port.as_str()),
            _ => false,
        },
        LinkNeed::OutOfBand => match link {
            ServeRoleLink::Bootstrap { .. } => true,
            ServeRoleLink::SideChannel { .. } => true,
            _ => false,
        },
    }
}

/// The plan holds a link that meets the need.
pub open spec fn linked(plan: PlanServeResult, need: Need) -> bool {
    exists|i: int|
        0 <= i < plan.links@.len() && link_meets(plan.replicas@, #[trigger] plan.links@[i], need)
}

fn check_linked(plan: &PlanServeResult, need: LinkNeed) -> (r: bool)
    ensures
        r == linked(*plan, need@),
{
    let mut i: usize = 0;
    while i < plan.links.len()
        invariant
            i <= plan.links@.len(),
            forall|j: int|
                0 <= j < i ==> !link_meets(plan.replicas@, #[trigger] plan.links@[j], need@),
        decreases plan.links@.len() - i,
    {
        if check_link_meets(plan.replicas.as_slice(), &plan.links[i], need) {
            assert(link_meets(plan.replicas@, plan.links@[i as int], need@));
            return true;
        }
        i += 1;
    }
    false
}

/// Every link of the plan is valid.
pub open spec fn links_valid(
    topology: ServeTopology,
    kv_transfer: Option<KvTransferMechanism>,
    plan: PlanServeResult,
) -> bool {
    forall|i: int|
        0 <= i < plan.links@.len() ==> link_valid(
            topology,
            kv_transfer,
            plan,
            #[trigger] plan.links@[i],
        )
}

fn check_links_valid(
    topology: ServeTopology,
    kv_transfer: Option<KvTransferMechanism>,
    plan: &PlanServeResult,
) -> (r: bool)
    ensures
        r == links_valid(topology, kv_transfer, *plan),
{
    let mut i: usize = 0;
    while i < plan.links.len()
        invariant
            i <= plan.links@.len(),
            forall|j: int|
                0 <= j < i ==> link_valid(topology, kv_transfer, *plan, #[trigger] plan.links@[j]),
        decreases plan.links@.len() - i,
    {
        if !check_link_valid(topology, kv_transfer, plan, &plan.links[i]) {
            assert(!link_valid(topology, kv_transfer, *plan, plan.links@[i as int]));
            return false;
        }
        i += 1;
    }
    true
}

/// Why the links are refused whatever the topology.
pub open spec fn link_fault(
    integration: Seq<char>,
    topology: ServeTopology,
    kv_transfer: Option<KvTransferMechanism>,
    plan: PlanServeResult,
) -> Option<Seq<char>> {
    let who = "integration "@ + debug_text(integration);
    if kv_transfer matches Some(mechanism) && !linked(plan, Need::Mechanism { mechanism }) {
        Some(who + " did not link the planned KV-transfer mechanism"@)
    } else if !links_valid(topology, kv_transfer, plan) {
        Some(who + " returned a link with unknown component or Engine endpoints"@)
    } else {
        None
    }
}

fn check_links(
    integration: &str,
    topology: ServeTopology,
    kv_transfer: Option<KvTransferMechanism>,
    plan: &PlanServeResult,
) -> (r: Result<(), InferlabError>)
    ensures
        answers(r, link_fault(integration@, topology, kv_transfer, *plan)),
{
    let who = cat2("integration ", debug(integration).as_str());
    if let Some(mechanism) = kv_transfer {
        if !check_linked(plan, LinkNeed::Mechanism { mechanism }) {
            return invalid_config(
                cat2(who.as_str(), " did not link the planned KV-transfer mechanism"),
            );
        }
    }
    if !check_links_valid(topology, kv_transfer, plan) {
        return invalid_config(
            cat2(who.as_str(), " returned a link with unknown component or Engine endpoints"),
        );
    }
    Ok(())
}

/// The link that the key-value transport of the framework needs is there.
pub open spec fn transport_linked(
    integration: Seq<char>,
    kv_transfer: Option<KvTransferMechanism>,
    plan: PlanServeResult,
    pd_router: PdRouterPlan,
) -> bool {
    match kv_transfer {
        None => false,
        Some(KvTransferMechanism::Mooncake) => linked(
            plan,
            Need::Bootstrap { source: "pd_router"@, target: pd_router.prefill_role@ },
        ),
        Some(KvTransferMechanism::Nixl) => if integration == "tensorrt-llm"@ {
            true
        } else if integration == "sglang"@ {
            linked(
                plan,
                Need::Bootstrap { source: "pd_router"@, target: pd_router.prefill_role@ },
            )
        } else {
            linked(
                plan,
                Need::SideChannel {
                    source: pd_router.prefill_role@,
                    target: pd_router.decode_role@,
                },
            )
        },
    }
}

fn check_transport(
    integration: &str,
    kv_transfer: Option<KvTransferMechanism>,
    plan: &PlanServeResult,
    pd_router: &PdRouterPlan,
) -> (r: bool)
    ensures
        r == transport_linked(integration@, kv_transfer, *plan, *pd_router),
{
    let bootstrap = LinkNeed::Bootstrap {
        source: "pd_router",
        target: pd_router.prefill_role.as_str(),
    };
    match kv_transfer {
        None => false,
        Some(KvTransferMechanism::Mooncake) => check_linked(plan, bootstrap),
        Some(KvTransferMechanism::Nixl) => if same(integration, "tensorrt-llm") {
            true
        } else if same(integration, "sglang") {
            check_linked(plan, bootstrap)
        } else {
            check_linked(
                plan,
                LinkNeed::SideChannel {
                    source: pd_router.prefill_role.as_str(),
                    target: pd_router.decode_role.as_str(),
                },
            )
        },
    }
}

/// The routes and the transfer that a prefill/decode server needs are there.
pub open spec fn disaggregation_linked(
    kv_transfer: Option<KvTransferMechanism>,
    plan: PlanServeResult,
    pd_router: PdRouterPlan,
) -> bool {
    &&& linked(plan, Need::RouteOnly { source: "gateway"@, target: "pd_router"@ })
    &&& linked(
        plan,
        Need::RouteBoth {
            source: "pd_router"@,
            first: pd_router.prefill_role@,
            second: pd_router.decode_role@,
        },
    )
    &&& kv_transfer matches Some(mechanism) && linked(
        plan,
        Need::Transfer {
            source: pd_router.prefill_role@,
            target: pd_router.decode_role@,
            mechanism,
        },
    )
}

/// Why the links are refused for the topology.
pub open spec fn route_fault(
    integration: Seq<char>,
    topology: ServeTopology,
    kv_transfer: Option<KvTransferMechanism>,
    plan: PlanServeResult,
) -> Option<Seq<char>> {
    let who = "integration "@ + debug_text(integration);
    match topology {
        ServeTopology::Single => {
            let serve = match serve_index(plan.roles@) {
                Some(i) => plan.roles@[i].id@,
                None => "serve"@,
            };
            if plan.gateway is Some && !linked(
                plan,
                Need::RouteOnly { source: "gateway"@, target: serve },
            ) {
                Some(who + " did not link Gateway to its single Engine"@)
            } else {
                None
            }
        },
        ServeTopology::PrefillDecode => match plan.pd_router {
            None => Some("validated prefill_decode plan lost its P/D Router"@),
            Some(pd_router) => if !disaggregation_linked(kv_transfer, plan, pd_router) {
                Some(who + " did not declare the required Gateway, P/D routing, and KV links"@)
            } else if integration == "tensorrt-llm"@ && kv_transfer == Some(
                KvTransferMechanism::Nixl,
            ) && linked(plan, Need::OutOfBand) {
                Some(
                    who
                        + " declared a bootstrap or side-channel link for in-band NIXL transfer"@,
                )
            } else if !transport_linked(integration, kv_transfer, plan, pd_router) {
                Some(
                    who + " did not declare the required KV transport link and process ports"@,
                )
            } else {
                None
            },
        },
    }
}

fn check_routes(
    integration: &str,
    topology: ServeTopology,
    kv_transfer: Option<KvTransferMechanism>,
    plan: &PlanServeResult,
) -> (r: Result<(), InferlabError>)
    ensures
        answers(r, route_fault(integration@, topology, kv_transfer, *plan)),
{
    let who = cat2("integration ", debug(integration).as_str());
    match topology {
        ServeTopology::Single => {
            if plan.gateway.is_some() {
                let serve = match find_serve(plan.roles.as_slice()) {
                    Some(i) => plan.roles[i].id.as_str(),
                    None => "serve",
                };
                if !check_linked(plan, LinkNeed::RouteOnly { source: "gateway", target: serve }) {
                    return invalid_config(
                        cat2(who.as_str(), " did not link Gateway to its single Engine"),
                    );
                }
            }
            Ok(())
        },
        ServeTopology::PrefillDecode => {
            let pd_router = match &plan.pd_router {
                None => {
                    return invalid_config(
                        "validated prefill_decode plan lost its P/D Router".to_owned(),
                    );
                },
                Some(pd_router) => pd_router,
            };
            let prefill = pd_router.prefill_role.as_str();
            let decode = pd_router.decode_role.as_str();
            let handoff = check_linked(
                plan,
                LinkNeed::RouteOnly { source: "gateway", target: "pd_router" },
            );
            let routing = check_linked(
                plan,
                LinkNeed::RouteBoth { source: "pd_router", first: prefill, second: decode },
            );
            let transfer = match kv_transfer {
                Some(mechanism) => check_linked(
                    plan,
                    LinkNeed::Transfer { source: prefill, target: decode, mechanism },
                ),
                None => false,
            };
            if !handoff || !routing || !transfer {
                return invalid_config(
                    cat2(
                        who.as_str(),
                        " did not declare the required Gateway, P/D routing, and KV links",
                    ),
                );
            }
            let in_band = same(integration, "tensorrt-llm") && uses_mechanism(
                KvTransferMechanism::Nixl,
                kv_transfer,
            );
            if in_band && check_linked(plan, LinkNeed::OutOfBand) {
                return invalid_config(
                    cat2(
                        who.as_str(),
                        " declared a bootstrap or side-channel link for in-band NIXL transfer",
                    ),
                );
            }
            if !check_transport(integration, kv_transfer, plan, pd_router) {
                return invalid_config(
                    cat2(
                        who.as_str(),
                        " did not declare the required KV transport link and process ports",
                    ),
                );
            }
            Ok(())
        },
    }
}

// ---------------------------------------------------------------------------
// The whole graph

/// Why the engine roles and replicas of the plan are refused.
pub open spec fn engine_fault(
    integration: Seq<char>,
    requested: Seq<ServeRoleInput>,
    plan: PlanServeResult,
) -> Option<Seq<char>> {
    let who = "integration "@ + debug_text(integration);
    if !roles_sound(plan.roles@) {
        Some(who + " returned a duplicate or empty Engine role id"@)
    } else if !role_set_kept(plan.roles@, requested) {
        Some(who + " did not preserve the requested Engine role set"@)
    } else {
        or_fault(
            first_some(plan.replicas@.len(), replica_fault(integration, plan)),
            first_some(plan.roles@.len(), omission_fault(integration, plan)),
        )
    }
}

/// Why the frontend of the plan is refused.
pub open spec fn frontend_fault(
    integration: Seq<char>,
    topology: ServeTopology,
    gateway_backend: Option<Seq<char>>,
    pd_router_backend: Option<Seq<char>>,
    plan: PlanServeResult,
) -> Option<Seq<char>> {
    match topology {
        ServeTopology::Single => single_fault(integration, gateway_backend, pd_router_backend, plan),
        ServeTopology::PrefillDecode => prefill_decode_fault(
            integration,
            gateway_backend,
            pd_router_backend,
            plan,
        ),
    }
}

/// Why the public endpoint of the plan is refused.
pub open spec fn public_fault(
    integration: Seq<char>,
    topology: ServeTopology,
    plan: PlanServeResult,
) -> Option<Seq<char>> {
    match (public_endpoint_of(topology, plan), public_ports_of(topology, plan)) {
        (None, _) => Some(no_public_endpoint(integration, topology)),
        (Some(_), None) => Some(no_public_ports(integration, topology, plan)),
        (Some(endpoint), Some(ports)) => workload_endpoint_fault(integration, endpoint, ports),
    }
}

/// Why the plan is refused: the first fault of its engines, its frontend, its
/// public endpoint, its links and its routes.
pub open spec fn serve_graph_fault(
    integration: Seq<char>,
    topology: ServeTopology,
    requested_roles: Seq<ServeRoleInput>,
    gateway_backend: Option<Seq<char>>,
    pd_router_backend: Option<Seq<char>>,
    kv_transfer: Option<KvTransferMechanism>,
    plan: PlanServeResult,
) -> Option<Seq<char>> {
    or_fault(
        engine_fault(integration, requested_roles, plan),
        or_fault(
            frontend_fault(integration, topology, gateway_backend, pd_router_backend, plan),
            or_fault(
                public_fault(integration, topology, plan),
                or_fault(
                    link_fault(integration, topology, kv_transfer, plan),
                    route_fault(integration, topology, kv_transfer, plan),
                ),
            ),
        ),
    )
}

fn check_engines(
    integration: &str,
    requested_roles: &[ServeRoleInput],
    plan: &PlanServeResult,
) -> (r: Result<(), InferlabError>)
    ensures
        answers(r, engine_fault(integration@, requested_roles@, *plan)),
{
    let who = cat2("integration ", debug(integration).as_str());
    if !check_roles_sound(plan.roles.as_slice()) {
        return invalid_config(
            cat2(who.as_str(), " returned a duplicate or empty Engine role id"),
        );
    }
    if !check_role_set(plan.roles.as_slice(), requested_roles) {
        return invalid_config(
            cat2(who.as_str(), " did not preserve the requested Engine role set"),
        );
    }
    match check_replicas(integration, plan) {
        Err(error) => Err(error),
        Ok(()) => check_omissions(integration, plan),
    }
}

fn check_public(
    integration: &str,
    topology: ServeTopology,
    plan: &PlanServeResult,
) -> (r: Result<(), InferlabError>)
    ensures
        answers(r, public_fault(integration@, topology, *plan)),
{
    match public_endpoint_requirement(integration, topology, plan) {
        Err(error) => Err(error),
        Ok(endpoint) => match public_endpoint_ports(integration, topology, plan) {
            Err(error) => Err(error),
            Ok(ports) => validate_workload_endpoint(integration, endpoint, ports),
        },
    }
}

/// Refuses a plan whose engines, frontend, public endpoint or links do not form
/// the serving graph that was asked for.
pub fn validate_serve_graph(
    integration: &str,
    topology: ServeTopology,
    requested_roles: &[ServeRoleInput],
    gateway_backend: Option<&str>,
    pd_router_backend: Option<&str>,
    kv_transfer: Option<KvTransferMechanism>,
    plan: &PlanServeResult,
) -> (r: Result<(), InferlabError>)
    ensures
        answers(
            r,
            serve_graph_fault(
                integration@,
                topology,
                requested_roles@,
                optional_text(gateway_backend),
                optional_text(pd_router_backend),
                kv_transfer,
                *plan,
            ),
        ),
{
    match check_engines(integration, requested_roles, plan) {
        Err(error) => {
            return Err(error);
        },
        Ok(()) => {},
    }
    let frontend = match topology {
        ServeTopology::Single => check_single(
            integration,
            gateway_backend,
            pd_router_backend,
            plan,
        ),
        ServeTopology::PrefillDecode => check_prefill_decode(
            integration,
            gateway_backend,
            pd_router_backend,
            plan,
        ),
    };
    match frontend {
        Err(error) => {
            return Err(error);
        },
        Ok(()) => {},
    }
    match check_public(integration, topology, plan) {
        Err(error) => {
            return Err(error);
        },
        Ok(()) => {},
    }
    match check_links(integration, topology, kv_transfer, plan) {
        Err(error) => {
            return Err(error);
        },
        Ok(()) => {},
    }
    check_routes(integration, topology, kv_transfer, plan)
}

// ---------------------------------------------------------------------------
// Captures, identity and synthetic acceptance

/// The name of a capture mechanism.
pub open spec fn mechanism_text(mechanism: CaptureMechanism) -> Seq<char> {
    match mechanism {
        CaptureMechanism::Nsys => "Nsys"@,
        CaptureMechanism::EngineTrace => "EngineTrace"@,
    }
}

fn mechanism_name(mechanism: CaptureMechanism) -> (r: &'static str)
    ensures
        r@ == mechanism_text(mechanism),
{
    match mechanism {
        CaptureMechanism::Nsys => "Nsys",
        CaptureMechanism::EngineTrace => "EngineTrace",
    }
}

/// Why the path of a window action is refused.
pub open spec fn action_path_fault(
    integration: Seq<char>,
    operation: Seq<char>,
    path: Seq<char>,
    replica: Seq<char>,
) -> Option<Seq<char>> {
    if absolute_origin_path(path) {
        None
    } else {
        Some(
            "integration "@ + debug_text(integration) + " declared capture "@ + operation + " path "@
                + debug_text(path) + (" for replica "@ + debug_text(replica)
                + "; expected an absolute origin path without scheme, authority, query, fragment, backslash, control character, or whitespace"@),
        )
    }
}

fn check_action_path(integration: &str, operation: &str, path: &str, replica: &str) -> (r: Result<
    (),
    InferlabError,
>)
    ensures
        answers(r, action_path_fault(integration@, operation@, path@, replica@)),
{
    if is_absolute_origin_path(path) {
        return Ok(());
    }
    let end = cat3(
        " for replica ",
        debug(replica).as_str(),
        "; expected an absolute origin path without scheme, authority, query, fragment, backslash, control character, or whitespace",
    );
    invalid_config(
        cat7(
            "integration ",
            debug(integration).as_str(),
            " declared capture ",
            operation,
            " path ",
            debug(path).as_str(),
            end.as_str(),
        ),
    )
}

/// Why the capture target of the replica at a position is refused.
pub open spec fn capture_fault(
    integration: Seq<char>,
    profiling: Option<CaptureMechanism>,
    has_gateway: bool,
    replicas: Seq<ServeReplicaRequirement>,
) -> spec_fn(int) -> Option<Seq<char>> {
    |i: int|
        {
            let replica = replicas[i];
            let who = "integration "@ + debug_text(integration);
            match replica.capture_target {
                Some(target) => if profiling is Some && target.mechanism != profiling->0 {
                    Some(
                        who + " declared capture mechanism "@ + mechanism_text(target.mechanism)
                            + " for replica "@ + debug_text(replica.id@)
                            + ", but the effective request mechanism is "@ + mechanism_text(
                            profiling->0,
                        ),
                    )
                } else if target.window_control.endpoint == CaptureWindowControlEndpoint::Gateway
                    && !has_gateway {
                    Some(
                        who
                            + " selected Gateway profiling window control without planning a Gateway"@,
                    )
                } else {
                    or_fault(
                        action_path_fault(
                            integration,
                            "start"@,
                            target.window_control.start.path@,
                            replica.id@,
                        ),
                        action_path_fault(
                            integration,
                            "stop"@,
                            target.window_control.stop.path@,
                            replica.id@,
                        ),
                    )
                },
                None => if profiling is Some && replica.device_count != 0 {
                    Some(
                        who + " did not prepare model-serving replica "@ + debug_text(replica.id@)
                            + " as a profiling target"@,
                    )
                } else {
                    None
                },
            }
        }
}

fn check_capture(
    integration: &str,
    profiling: Option<CaptureMechanism>,
    has_gateway: bool,
    replicas: &[ServeReplicaRequirement],
    i: usize,
) -> (r: Result<(), InferlabError>)
    requires
        i < replicas@.len(),
    ensures
        answers(r, capture_fault(integration@, profiling, has_gateway, replicas@)(i as int)),
{
    let who = cat2("integration ", debug(integration).as_str());
    let replica = &replicas[i];
    match &replica.capture_target {
        Some(target) => {
            if let Some(mechanism) = profiling {
                if target.mechanism != mechanism {
                    return invalid_config(
                        cat7(
                            who.as_str(),
                            " declared capture mechanism ",
                            mechanism_name(target.mechanism),
                            " for replica ",
                            debug(replica.id.as_str()).as_str(),
                            ", but the effective request mechanism is ",
                            mechanism_name(mechanism),
                        ),
                    );
                }
            }
            if target.window_control.endpoint == CaptureWindowControlEndpoint::Gateway
                && !has_gateway {
                return invalid_config(
                    cat2(
                        who.as_str(),
                        " selected Gateway profiling window control without planning a Gateway",
                    ),
                );
            }
            match check_action_path(
                integration,
                "start",
                target.window_control.start.path.as_str(),
                replica.id.as_str(),
            ) {
                Err(error) => Err(error),
                Ok(()) => check_action_path(
                    integration,
                    "stop",
                    target.window_control.stop.path.as_str(),
                    replica.id.as_str(),
                ),
            }
        },
        None => {
            if profiling.is_some() && replica.device_count != 0 {
                return invalid_config(
                    cat4(
                        who.as_str(),
                        " did not prepare model-serving replica ",
                        debug(replica.id.as_str()).as_str(),
                        " as a profiling target",
                    ),
                );
            }
            Ok(())
        },
    }
}

/// Refuses capture targets with another mechanism, without the gateway that
/// controls them, with a path that is no origin path, or missing where a model
/// is served while profiling.
pub fn validate_capture_targets(
    integration: &str,
    profiling: Option<CaptureMechanism>,
    has_gateway: bool,
    replicas: &[ServeReplicaRequirement],
) -> (r: Result<(), InferlabError>)
    ensures
        answers(
            r,
            first_some(
                replicas@.len(),
                capture_fault(integration@, profiling, has_gateway, replicas@),
            ),
        ),
{
    let ghost f = capture_fault(integration@, profiling, has_gateway, replicas@);
    let mut i: usize = 0;
    while i < replicas.len()
        invariant
            i <= replicas@.len(),
            f == capture_fault(integration@, profiling, has_gateway, replicas@),
            first_some(i as nat, f) is None,
        decreases replicas@.len() - i,
    {
        match check_capture(integration, profiling, has_gateway, replicas, i) {
            Err(error) => {
                proof {
                    lemma_first_some_stays((i + 1) as nat, replicas@.len(), f);
                }
                return Err(error);
            },
            Ok(()) => {},
        }
        i += 1;
    }
    Ok(())
}

/// Refuses an integration that answers as another framework.
pub fn validate_integration_identity(expected: &str, actual: &str) -> (r: Result<(), InferlabError>)
    ensures
        answers(
            r,
            if actual@ == expected@ {
                None
            } else {
                Some(
                    "integration "@ + debug_text(expected@) + " returned framework identity "@
                        + debug_text(actual@),
                )
            },
        ),
{
    if same(actual, expected) {
        Ok(())
    } else {
        invalid_config(
            cat4(
                "integration ",
                debug(expected).as_str(),
                " returned framework identity ",
                debug(actual).as_str(),
            ),
        )
    }
}

/// The IEEE 754 bits are those of a finite number of at least one.
pub open spec fn finite_at_least_one(bits: u64) -> bool {
    0x3ff0_0000_0000_0000 <= bits < 0x7ff0_0000_0000_0000
}

/// Why the outcome of synthetic acceptance is refused.
pub open spec fn acceptance_fault(
    integration: Seq<char>,
    request: Option<&SyntheticAcceptanceInput>,
    outcome: Option<&SyntheticAcceptanceOutcome>,
) -> Option<Seq<char>> {
    let who = "integration "@ + debug_text(integration);
    match (request, outcome) {
        (None, None) => None,
        (Some(_), None) => Some(
            who
                + " omitted the synthetic acceptance outcome although the plan request carried the declaration"@,
        ),
        (None, Some(_)) => Some(
            who
                + " returned a synthetic acceptance outcome although the plan request carried no declaration"@,
        ),
        (Some(input), Some(outcome)) => if !finite_at_least_one(outcome.acceptance_length.bits) {
            Some(
                who + " returned synthetic acceptance length "@ + outcome.acceptance_length.text@
                    + "; it must be a finite number of at least one"@,
            )
        } else if input is Curve && outcome.draft_count is None {
            Some(
                who
                    + " omitted the determined draft count although the plan request carried the curve form"@,
            )
        } else if input is Explicit && outcome.draft_count is Some {
            Some(
                who
                    + " returned a draft count although the plan request carried the explicit form"@,
            )
        } else {
            None
        },
    }
}

/// Refuses an outcome without a declaration, a declaration without an outcome, a
/// length below one, and a draft count that does not fit the declared form.
pub fn validate_synthetic_acceptance_outcome(
    integration: &str,
    request: Option<&SyntheticAcceptanceInput>,
    outcome: Option<&SyntheticAcceptanceOutcome>,
) -> (r: Result<(), InferlabError>)
    ensures
        answers(r, acceptance_fault(integration@, request, outcome)),
{
    let who = cat2("integration ", debug(integration).as_str());
    match (request, outcome) {
        (None, None) => Ok(()),
        (Some(_), None) => invalid_config(
            cat2(
                who.as_str(),
                " omitted the synthetic acceptance outcome although the plan request carried the declaration",
            ),
        ),
        (None, Some(_)) => invalid_config(
            cat2(
                who.as_str(),
                " returned a synthetic acceptance outcome although the plan request carried no declaration",
            ),
        ),
        (Some(input), Some(outcome)) => {
            let bits: u64 = outcome.acceptance_length.bits;
            if bits < 0x3ff0_0000_0000_0000 || bits >= 0x7ff0_0000_0000_0000 {
                return invalid_config(
                    cat4(
                        who.as_str(),
                        " returned synthetic acceptance length ",
                        outcome.acceptance_length.text.as_str(),
                        "; it must be a finite number of at least one",
                    ),
                );
            }
            match input {
                SyntheticAcceptanceInput::Curve(_) => if outcome.draft_count.is_none() {
                    invalid_config(
                        cat2(
                            who.as_str(),
                            " omitted the determined draft count although the plan request carried the curve form",
                        ),
                    )
                } else {
                    Ok(())
                },
                SyntheticAcceptanceInput::Explicit { .. } => if outcome.draft_count.is_some() {
                    invalid_config(
                        cat2(
                            who.as_str(),
                            " returned a draft count although the plan request carried the explicit form",
                        ),
                    )
                } else {
                    Ok(())
                },
            }
        },
    }
}

// ---------------------------------------------------------------------------
// What an accepted plan holds

/// In an accepted plan every role has exactly one replica for each index below
/// its effective count.
pub proof fn law_accepted_replicas_fill_roles(
    integration: Seq<char>,
    requested: Seq<ServeRoleInput>,
    plan: PlanServeResult,
    role: int,
    index: int,
)
    requires
        engine_fault(integration, requested, plan) is None,
        0 <= role < plan.roles@.len(),
        0 <= index < plan.roles@[role].effective_replica_count,
    ensures
        replica_planned(plan.replicas@, plan.roles@[role].id@, index),
        forall|j: int, k: int|
            0 <= j < plan.replicas@.len() && 0 <= k < plan.replicas@.len()
                && (#[trigger] plan.replicas@[j]).role_id@ == plan.roles@[role].id@ && (
            #[trigger] plan.replicas@[k]).role_id@ == plan.roles@[role].id@
                && plan.replicas@[j].replica_index == index && plan.replicas@[k].replica_index
                == index ==> j == k,
{
    let omissions = omission_fault(integration, plan);
    lemma_first_some_none(plan.roles@.len(), omissions);
    assert(omissions(role) is None);
    let missing = replica_missing(plan.replicas@, plan.roles@[role].id@);
    lemma_first_index(plan.roles@[role].effective_replica_count as nat, missing);
    assert(!missing(index));
    let faults = replica_fault(integration, plan);
    lemma_first_some_none(plan.replicas@.len(), faults);
    assert forall|j: int, k: int|
        0 <= j < plan.replicas@.len() && 0 <= k < plan.replicas@.len()
            && (#[trigger] plan.replicas@[j]).role_id@ == plan.roles@[role].id@ && (
        #[trigger] plan.replicas@[k]).role_id@ == plan.roles@[role].id@
            && plan.replicas@[j].replica_index == index && plan.replicas@[k].replica_index
            == index implies j == k by {
        assert(faults(j) is None);
        assert(faults(k) is None);
    }
}

/// In an accepted plan role ids and replica ids are unique, and every replica
/// belongs to a role of the plan.
pub proof fn law_accepted_ids_are_unique(
    integration: Seq<char>,
    requested: Seq<ServeRoleInput>,
    plan: PlanServeResult,
)
    requires
        engine_fault(integration, requested, plan) is None,
    ensures
        forall|i: int, j: int|
            0 <= i < j < plan.roles@.len() ==> (#[trigger] plan.roles@[i]).id@ != (
            #[trigger] plan.roles@[j]).id@,
        forall|i: int, j: int|
            0 <= i < j < plan.replicas@.len() ==> (#[trigger] plan.replicas@[i]).id@ != (
            #[trigger] plan.replicas@[j]).id@,
        forall|i: int|
            0 <= i < plan.replicas@.len() ==> role_index(
                plan.roles@,
                (#[trigger] plan.replicas@[i]).role_id@,
            ) is Some,
{
    assert forall|i: int, j: int| 0 <= i < j < plan.roles@.len() implies (
    #[trigger] plan.roles@[i]).id@ != (#[trigger] plan.roles@[j]).id@ by {
        assert(role_sound(plan.roles@, j));
    }
    let faults = replica_fault(integration, plan);
    lemma_first_some_none(plan.replicas@.len(), faults);
    assert forall|i: int, j: int| 0 <= i < j < plan.replicas@.len() implies (
    #[trigger] plan.replicas@[i]).id@ != (#[trigger] plan.replicas@[j]).id@ by {
        assert(faults(j) is None);
    }
    assert forall|i: int| 0 <= i < plan.replicas@.len() implies role_index(
        plan.roles@,
        (#[trigger] plan.replicas@[i]).role_id@,
    ) is Some by {
        assert(faults(i) is None);
    }
}

/// An accepted plan has one public endpoint, on the canonical workload routes.
pub proof fn law_accepted_endpoint_keeps_workload_routes(
    integration: Seq<char>,
    topology: ServeTopology,
    requested: Seq<ServeRoleInput>,
    gateway_backend: Option<Seq<char>>,
    pd_router_backend: Option<Seq<char>>,
    kv_transfer: Option<KvTransferMechanism>,
    plan: PlanServeResult,
)
    requires
        serve_graph_fault(
            integration,
            topology,
            requested,
            gateway_backend,
            pd_router_backend,
            kv_transfer,
            plan,
        ) is None,
    ensures
        public_endpoint_of(topology, plan) is Some,
        public_endpoint_of(topology, plan)->0.completions_path@ == "/v1/completions"@,
        public_endpoint_of(topology, plan)->0.chat_completions_path@ == "/v1/chat/completions"@,
{
}

/// An accepted plan answers each requested role with a role of the same id, kind and
/// declared count, and holds no other role.
pub proof fn law_accepted_roles_are_those_requested(
    integration: Seq<char>,
    requested: Seq<ServeRoleInput>,
    plan: PlanServeResult,
    k: int,
) -> (i: int)
    requires
        engine_fault(integration, requested, plan) is None,
        0 <= k < requested.len(),
    ensures
        plan.roles@.len() == requested.len(),
        0 <= i < plan.roles@.len(),
        plan.roles@[i].id@ == requested[k].id@,
        plan.roles@[i].kind == requested[k].kind,
        plan.roles@[i].declared_replica_count == requested[k].replica_count,
        plan.roles@[i].effective_replica_count > 0,
{
    assert(role_kept(plan.roles@, requested[k]));
    let i = choose|i: int|
        0 <= i < plan.roles@.len() && role_answers(#[trigger] plan.roles@[i], requested[k]);
    assert(role_sound(plan.roles@, i));
    i
}

/// Each replica of an accepted plan is one of a role of the plan, within the count of
/// that role, and needs devices.
pub proof fn law_accepted_replica_belongs_to_a_role(
    integration: Seq<char>,
    requested: Seq<ServeRoleInput>,
    plan: PlanServeResult,
    k: int,
) -> (i: int)
    requires
        engine_fault(integration, requested, plan) is None,
        0 <= k < plan.replicas@.len(),
    ensures
        0 <= i < plan.roles@.len(),
        plan.roles@[i].id@ == plan.replicas@[k].role_id@,
        plan.replicas@[k].replica_index < plan.roles@[i].effective_replica_count,
        plan.replicas@[k].device_count > 0,
        plan.replicas@[k].id@.len() > 0,
{
    let faults = replica_fault(integration, plan);
    lemma_first_some_none(plan.replicas@.len(), faults);
    assert(faults(k) is None);
    let named = role_is(plan.roles@, plan.replicas@[k].role_id@);
    lemma_first_index(plan.roles@.len(), named);
    role_index(plan.roles@, plan.replicas@[k].role_id@)->0
}

/// An accepted single server has no router. Behind a gateway, which is then the selected
/// one, no engine is public and the gateway forwards to a serving engine, over a link;
/// without one, a serving engine is public and no other is.
pub proof fn law_accepted_single_server_has_one_way_in(
    integration: Seq<char>,
    requested: Seq<ServeRoleInput>,
    gateway_backend: Option<Seq<char>>,
    pd_router_backend: Option<Seq<char>>,
    kv_transfer: Option<KvTransferMechanism>,
    plan: PlanServeResult,
    j: int,
) -> (serve: int)
    requires
        serve_graph_fault(
            integration,
            ServeTopology::Single,
            requested,
            gateway_backend,
            pd_router_backend,
            kv_transfer,
            plan,
        ) is None,
        0 <= j < plan.roles@.len(),
    ensures
        plan.pd_router is None && pd_router_backend is None,
        0 <= serve < plan.roles@.len() && plan.roles@[serve].kind == ServeRoleKind::Serve,
        plan.gateway is None <==> gateway_backend is None,
        plan.gateway is None ==> (plan.roles@[j].public_endpoint is Some <==> j == serve),
        plan.gateway matches Some(gateway) ==> {
            &&& gateway_backend == Some(gateway.backend@)
            &&& gateway.render_source == RenderSource::Integration
            &&& plan.roles@[j].public_endpoint is None
            &&& gateway.targets@.len() == 1
            &&& gateway.targets@[0] matches GatewayTarget::Engine { role }
            &&& role@ == plan.roles@[serve].id@
            &&& exists|k: int|
                0 <= k < plan.links@.len() && ((
                #[trigger] plan.links@[k]) matches ServeRoleLink::RequestRouting { source, targets }
                    && source@ == "gateway"@ && targets@.len() == 1 && targets@[0]@
                    == plan.roles@[serve].id@)
        },
{
    lemma_first_index(plan.roles@.len(), role_serves(plan.roles@));
    let serve = serve_index(plan.roles@)->0;
    if plan.gateway is Some {
        let need = Need::RouteOnly { source: "gateway"@, target: plan.roles@[serve].id@ };
        assert(linked(plan, need));
        let k = choose|k: int|
            0 <= k < plan.links@.len() && link_meets(
                plan.replicas@,
                #[trigger] plan.links@[k],
                need,
            );
        assert(link_meets(plan.replicas@, plan.links@[k], need));
    }
    serve
}

/// An accepted prefill/decode server stands behind the selected gateway and router, which
/// are one implementation; the gateway forwards to the router, the router to a prefill
/// role and a decode role of the plan, and no engine is public.
pub proof fn law_accepted_split_server_stands_behind_its_frontend(
    integration: Seq<char>,
    requested: Seq<ServeRoleInput>,
    gateway_backend: Option<Seq<char>>,
    pd_router_backend: Option<Seq<char>>,
    kv_transfer: Option<KvTransferMechanism>,
    plan: PlanServeResult,
    j: int,
) -> (roles: (int, int))
    requires
        serve_graph_fault(
            integration,
            ServeTopology::PrefillDecode,
            requested,
            gateway_backend,
            pd_router_backend,
            kv_transfer,
            plan,
        ) is None,
        0 <= j < plan.roles@.len(),
    ensures
        plan.roles@[j].public_endpoint is None,
        0 <= roles.0 < plan.roles@.len() && plan.roles@[roles.0].kind == ServeRoleKind::Prefill,
        0 <= roles.1 < plan.roles@.len() && plan.roles@[roles.1].kind == ServeRoleKind::Decode,
        plan.gateway matches Some(gateway) && (plan.pd_router matches Some(pd_router) && {
            &&& gateway_backend == Some(gateway.backend@)
            &&& pd_router_backend == Some(pd_router.backend@)
            &&& gateway.implementation@ == pd_router.implementation@
            &&& gateway.implementation_version@ == pd_router.implementation_version@
            &&& gateway.render_source == pd_router.render_source
            &&& gateway.co_rendering == pd_router.co_rendering
            &&& gateway.targets@.len() == 1 && gateway.targets@[0] is PdRouter
            &&& pd_router.prefill_role@ == plan.roles@[roles.0].id@
            &&& pd_router.decode_role@ == plan.roles@[roles.1].id@
        }),
{
    let pd_router = plan.pd_router->0;
    lemma_first_index(plan.roles@.len(), role_is(plan.roles@, pd_router.prefill_role@));
    lemma_first_index(plan.roles@.len(), role_is(plan.roles@, pd_router.decode_role@));
    (
        role_index(plan.roles@, pd_router.prefill_role@)->0,
        role_index(plan.roles@, pd_router.decode_role@)->0,
    )
}

/// An accepted prefill/decode server links its parts: the gateway to the router alone, the
/// router to the prefill and the decode role, and prefill to decode over the mechanism
/// of the transfer. The places of the three links are given.
pub proof fn law_accepted_split_server_is_linked(
    integration: Seq<char>,
    requested: Seq<ServeRoleInput>,
    gateway_backend: Option<Seq<char>>,
    pd_router_backend: Option<Seq<char>>,
    kv_transfer: Option<KvTransferMechanism>,
    plan: PlanServeResult,
) -> (places: (int, int, int))
    requires
        serve_graph_fault(
            integration,
            ServeTopology::PrefillDecode,
            requested,
            gateway_backend,
            pd_router_backend,
            kv_transfer,
            plan,
        ) is None,
    ensures
        0 <= places.0 < plan.links@.len(),
        0 <= places.1 < plan.links@.len(),
        0 <= places.2 < plan.links@.len(),
        plan.links@[places.0] matches ServeRoleLink::RequestRouting { source, targets } && source@
            == "gateway"@ && targets@.len() == 1 && targets@[0]@ == "pd_router"@,
        plan.links@[places.1] matches ServeRoleLink::RequestRouting { source, targets } && source@
            == "pd_router"@ && lists(targets@, plan.pd_router->0.prefill_role@) && lists(
            targets@,
            plan.pd_router->0.decode_role@,
        ),
        plan.links@[places.2] matches ServeRoleLink::KvTransfer { source, target, mechanism }
            && source@ == plan.pd_router->0.prefill_role@ && target@
            == plan.pd_router->0.decode_role@ && kv_transfer == Some(mechanism),
{
    let pd_router = plan.pd_router->0;
    let front = Need::RouteOnly { source: "gateway"@, target: "pd_router"@ };
    let split = Need::RouteBoth {
        source: "pd_router"@,
        first: pd_router.prefill_role@,
        second: pd_router.decode_role@,
    };
    let moved = Need::Transfer {
        source: pd_router.prefill_role@,
        target: pd_router.decode_role@,
        mechanism: kv_transfer->0,
    };
    assert(linked(plan, front) && linked(plan, split) && linked(plan, moved));
    let a = choose|i: int|
        0 <= i < plan.links@.len() && link_meets(plan.replicas@, #[trigger] plan.links@[i], front);
    let b = choose|i: int|
        0 <= i < plan.links@.len() && link_meets(plan.replicas@, #[trigger] plan.links@[i], split);
    let c = choose|i: int|
        0 <= i < plan.links@.len() && link_meets(plan.replicas@, #[trigger] plan.links@[i], moved);
    (a, b, c)
}

/// A transfer over Mooncake is bootstrapped at the prefill role: an accepted plan links the
/// router to it over a port that each of its replicas declares.
pub proof fn law_mooncake_is_bootstrapped_at_prefill(
    integration: Seq<char>,
    plan: PlanServeResult,
    k: int,
) -> (at: int)
    requires
        route_fault(
            integration,
            ServeTopology::PrefillDecode,
            Some(KvTransferMechanism::Mooncake),
            plan,
        ) is None,
        0 <= k < plan.replicas@.len(),
        plan.replicas@[k].role_id@ == plan.pd_router->0.prefill_role@,
    ensures
        0 <= at < plan.links@.len(),
        plan.links@[at] matches ServeRoleLink::Bootstrap { source, target, port } && source@
            == "pd_router"@ && target@ == plan.pd_router->0.prefill_role@ && lists(
            plan.replicas@[k].ports@,
            port@,
        ),
{
    let need = Need::Bootstrap {
        source: "pd_router"@,
        target: plan.pd_router->0.prefill_role@,
    };
    assert(linked(plan, need));
    choose|i: int|
        0 <= i < plan.links@.len() && link_meets(plan.replicas@, #[trigger] plan.links@[i], need)
}

/// A transfer over NIXL is in band for TensorRT-LLM: an accepted plan has neither a
/// bootstrap nor a side channel then.
pub proof fn law_in_band_transfer_has_no_other_channel(plan: PlanServeResult, i: int)
    requires
        route_fault(
            "tensorrt-llm"@,
            ServeTopology::PrefillDecode,
            Some(KvTransferMechanism::Nixl),
            plan,
        ) is None,
        0 <= i < plan.links@.len(),
    ensures
        !(plan.links@[i] is Bootstrap),
        !(plan.links@[i] is SideChannel),
{
    assert(!linked(plan, Need::OutOfBand));
    assert(!link_meets(plan.replicas@, plan.links@[i], Need::OutOfBand));
}

/// An accepted link has both its ends in the graph: at a role of the plan, at its gateway
/// or at the router of a prefill/decode server. A transfer uses the planned mechanism.
pub proof fn law_accepted_link_has_its_ends_in_the_graph(
    integration: Seq<char>,
    topology: ServeTopology,
    kv_transfer: Option<KvTransferMechanism>,
    plan: PlanServeResult,
    i: int,
    name: Seq<char>,
)
    requires
        link_fault(integration, topology, kv_transfer, plan) is None,
        0 <= i < plan.links@.len(),
        match plan.links@[i] {
            ServeRoleLink::RequestRouting { source, targets } => source@ == name || lists(
                targets@,
                name,
            ),
            ServeRoleLink::KvTransfer { source, target, .. } => source@ == name || target@ == name,
            ServeRoleLink::Bootstrap { source, target, .. } => source@ == name || target@ == name,
            ServeRoleLink::SideChannel { source, target, .. } => source@ == name || target@ == name,
        },
    ensures
        (exists|r: int| 0 <= r < plan.roles@.len() && (#[trigger] plan.roles@[r]).id@ == name) || (
        name == "gateway"@ && plan.gateway is Some) || (name == "pd_router"@ && topology
            == ServeTopology::PrefillDecode),
        plan.links@[i] matches ServeRoleLink::KvTransfer { mechanism, .. } ==> kv_transfer == Some(
            mechanism,
        ),
{
    assert(link_valid(topology, kv_transfer, plan, plan.links@[i]));
    if let ServeRoleLink::RequestRouting { source, targets } = plan.links@[i] {
        if source@ != name {
            let t = choose|t: int| 0 <= t < targets@.len() && (#[trigger] targets@[t])@ == name;
            assert(graph_node(topology, plan, targets@[t]@));
        }
    }
    assert(graph_node(topology, plan, name));
    lemma_first_index(plan.roles@.len(), role_is(plan.roles@, name));
}

/// A single server of one engine that answers the request, is public on the canonical
/// routes and has its one replica is accepted.
pub proof fn law_plain_single_server_is_accepted(
    integration: Seq<char>,
    requested: Seq<ServeRoleInput>,
    plan: PlanServeResult,
)
    requires
        requested.len() == 1 && plan.roles@.len() == 1 && plan.replicas@.len() == 1,
        plan.roles@[0].id@ == requested[0].id@ && requested[0].id@.len() > 0,
        plan.roles@[0].kind == ServeRoleKind::Serve && requested[0].kind == ServeRoleKind::Serve,
        plan.roles@[0].declared_replica_count == 1 && requested[0].replica_count == 1,
        plan.roles@[0].effective_replica_count == 1,
        plan.roles@[0].public_endpoint matches Some(endpoint) && endpoint.completions_path@
            == "/v1/completions"@ && endpoint.chat_completions_path@ == "/v1/chat/completions"@
            && endpoint.server_metrics is None,
        plan.replicas@[0].role_id@ == requested[0].id@ && plan.replicas@[0].replica_index == 0,
        plan.replicas@[0].id@.len() > 0 && plan.replicas@[0].device_count > 0,
        plan.gateway is None && plan.pd_router is None && plan.links@.len() == 0,
    ensures
        serve_graph_fault(integration, ServeTopology::Single, requested, None, None, None, plan)
            is None,
{
    let roles = plan.roles@;
    let id = requested[0].id@;
    assert(role_sound(roles, 0));
    assert(role_answers(roles[0], requested[0]));
    assert(role_set_kept(roles, requested)) by {
        assert forall|k: int| 0 <= k < requested.len() implies role_kept(
            roles,
            #[trigger] requested[k],
        ) by {
            assert(role_answers(roles[0], requested[k]));
        }
    }
    assert(role_is(roles, id)(0));
    lemma_first_index_is(roles.len(), role_is(roles, id), 0);
    assert(replica_sound(plan.replicas@, 0, 1));
    let faults = replica_fault(integration, plan);
    assert forall|i: int| 0 <= i < plan.replicas@.len() implies (#[trigger] faults(i)) is None by {
        assert(i == 0);
    }
    lemma_first_some_none(plan.replicas@.len(), faults);
    let missing = replica_missing(plan.replicas@, id);
    assert(plan.replicas@[0].role_id@ == id);
    assert(!missing(0));
    lemma_first_index(1, missing);
    let omissions = omission_fault(integration, plan);
    assert forall|i: int| 0 <= i < roles.len() implies (#[trigger] omissions(i)) is None by {
        assert(i == 0);
    }
    lemma_first_some_none(roles.len(), omissions);
    assert(role_serves(roles)(0));
    lemma_first_index_is(roles.len(), role_serves(roles), 0);
    assert(role_public(roles)(0));
    lemma_first_index_is(roles.len(), role_public(roles), 0);
    assert(entry_replica(plan.replicas@, id)(0));
    lemma_first_index_is(plan.replicas@.len(), entry_replica(plan.replicas@, id), 0);
}

/// Clients use the endpoint of the gateway where there is one; a single server without
/// one is reached at the first engine that is public.
pub proof fn law_clients_use_the_gateway_where_there_is_one(
    topology: ServeTopology,
    plan: PlanServeResult,
    i: int,
)
    requires
        0 <= i < plan.roles@.len(),
        plan.roles@[i].public_endpoint is Some,
        forall|j: int| 0 <= j < i ==> (#[trigger] plan.roles@[j]).public_endpoint is None,
    ensures
        plan.gateway matches Some(gateway) ==> public_endpoint_of(topology, plan) == Some(
            gateway.endpoint,
        ),
        plan.gateway is None && topology == ServeTopology::Single ==> public_endpoint_of(
            topology,
            plan,
        ) == plan.roles@[i].public_endpoint,
{
    assert(role_public(plan.roles@)(i));
    lemma_first_index_is(plan.roles@.len(), role_public(plan.roles@), i);
}

/// A replica is accepted for a capture exactly where each replica with devices is a target
/// of the requested mechanism, controlled over a gateway only where there is one, at
/// absolute paths.
pub proof fn law_accepted_capture_target_is_what_was_asked_for(
    integration: Seq<char>,
    profiling: Option<CaptureMechanism>,
    has_gateway: bool,
    replicas: Seq<ServeReplicaRequirement>,
    i: int,
)
    ensures
        (capture_fault(integration, profiling, has_gateway, replicas)(i) is None) <==> (
        match replicas[i].capture_target {
            Some(target) => {
                &&& profiling is Some ==> target.mechanism == profiling->0
                &&& target.window_control.endpoint == CaptureWindowControlEndpoint::Gateway
                    ==> has_gateway
                &&& absolute_origin_path(target.window_control.start.path@)
                &&& absolute_origin_path(target.window_control.stop.path@)
            },
            None => profiling is None || replicas[i].device_count == 0,
        }),
{
}

/// A path is one on the origin of its endpoint: it begins with one slash and holds no
/// query, fragment, backslash, control character or space.
pub proof fn law_origin_path_names_no_other_origin(path: Seq<char>, i: int)
    requires
        absolute_origin_path(path),
        0 <= i < path.len(),
    ensures
        path[0] == '/',
        i == 1 ==> path[i] != '/',
        path[i] != '?' && path[i] != '#' && path[i] != '\\' && path[i] != ' ' && path[i] != '\n'
            && path[i] != '\t' && path[i] != '\r' && path[i] != '\x7f' && path[i] != '\0',
{
    assert(origin_path_char(path[i]));
}

/// The outcome of a declared acceptance is told, and of none other; its draft count is
/// told exactly where the acceptance is a curve.
pub proof fn law_acceptance_is_told_where_it_was_declared(
    integration: Seq<char>,
    request: Option<&SyntheticAcceptanceInput>,
    outcome: Option<&SyntheticAcceptanceOutcome>,
)
    ensures
        (acceptance_fault(integration, request, outcome) is None) <==> (match (request, outcome) {
            (None, None) => true,
            (Some(input), Some(found)) => {
                &&& finite_at_least_one(found.acceptance_length.bits)
                &&& (found.draft_count is Some <==> *input is Curve)
            },
            _ => false,
        }),
{
}

/// The address of an endpoint tells its host and its port.
pub proof fn law_endpoint_address_tells_its_host_and_port(endpoint: EndpointAssignment)
    ensures
        ({
            let url = endpoint_url_text(endpoint);
            let scheme = "http://"@;
            let host = endpoint.host@;
            let port = decimal(endpoint.port as nat);
            &&& url.len() == scheme.len() + host.len() + 1 + port.len()
            &&& url.subrange(0, scheme.len() as int) == scheme
            &&& url.subrange(scheme.len() as int, (scheme.len() + host.len()) as int) == host
            &&& url[(scheme.len() + host.len()) as int] == ':'
            &&& url.subrange((scheme.len() + host.len() + 1) as int, url.len() as int) == port
        }),
{
    reveal_strlit(":");
    let url = endpoint_url_text(endpoint);
    let scheme = "http://"@;
    let host = endpoint.host@;
    let port = decimal(endpoint.port as nat);
    assert(":"@.len() == 1 && ":"@[0] == ':');
    assert(url.subrange(0, scheme.len() as int) =~= scheme);
    assert(url.subrange(scheme.len() as int, (scheme.len() + host.len()) as int) =~= host);
    assert(url.subrange((scheme.len() + host.len() + 1) as int, url.len() as int) =~= port);
}

} // verus!
