//! The hierarchy of a resolved server: roles, their replicas, the ranks of
//! these, and the frontend.

use crate::error::{invalid_config, or_fault, refuses, InferlabError};
use crate::protocol::{
    GatewayPlan, PdRouterPlan, PlanServeResult, ServeReplicaRequirement, ServeRoleInput,
    ServeRoleResult,
};
use crate::resolve::realization::ProcessPlan;
use crate::resolve::requirements::{ProcessRequirement, ProcessRequirementIdentity};
use crate::resolve::selection::{settings_fault, validate_effective_settings};
use crate::search::{
    first_index, first_some, lemma_first_index, lemma_first_index_is, lemma_first_some_none,
    lemma_first_some_stays,
};
use crate::text::{
    cat2, cat4, debug, debug_text, decimal, list_contains, lists, same, texts, to_decimal,
};
use vstd::prelude::*;
use vstd::string::*;

verus! {

/// A replica of a role: the places of its ranks among the processes.
pub struct RoleReplicaPlan<'a> {
    pub replica: &'a ServeReplicaRequirement,
    pub entry_process: String,
    pub ranks: Vec<usize>,
}

/// A role, as it was declared and as it is.
pub struct RolePlan<'a> {
    pub role: &'a ServeRoleResult,
    pub declared: Option<&'a ServeRoleInput>,
    pub replicas: Vec<RoleReplicaPlan<'a>>,
}

/// The frontend: its components and the place of their process.
pub struct FrontendPlan<'a> {
    pub gateway: &'a GatewayPlan,
    pub pd_router: Option<&'a PdRouterPlan>,
    pub process: usize,
}

// ---------------------------------------------------------------------------
// Ranks

/// The rank of the required process at a position.
pub open spec fn rank_of(requirements: Seq<ProcessRequirement>, i: int) -> int {
    match requirements[i].identity {
        ProcessRequirementIdentity::ModelRank { rank, .. } => rank as int,
        ProcessRequirementIdentity::Frontend { .. } => 0,
    }
}

/// The required process at a position is a rank of the replica.
pub open spec fn rank_in(
    requirements: Seq<ProcessRequirement>,
    i: int,
    role: Seq<char>,
    index: u32,
) -> bool {
    requirements[i].identity matches ProcessRequirementIdentity::ModelRank { replica, .. }
        && replica.role_id@ == role && replica.replica_index == index
}

/// The positions with one more, behind those of no higher rank.
pub open spec fn with_rank(
    requirements: Seq<ProcessRequirement>,
    sorted: Seq<int>,
    i: int,
) -> Seq<int>
    decreases sorted.len(),
{
    if sorted.len() == 0 {
        seq![i]
    } else if rank_of(requirements, sorted.last()) <= rank_of(requirements, i) {
        sorted.push(i)
    } else {
        with_rank(requirements, sorted.drop_last(), i).push(sorted.last())
    }
}

/// The positions of the ranks of a replica among the first processes, by rank;
/// equal ranks in their order.
pub open spec fn ranks_sorted(
    requirements: Seq<ProcessRequirement>,
    n: int,
    role: Seq<char>,
    index: u32,
) -> Seq<int>
    decreases n,
{
    if n <= 0 {
        Seq::empty()
    } else {
        let before = ranks_sorted(requirements, n - 1, role, index);
        if rank_in(requirements, n - 1, role, index) {
            with_rank(requirements, before, n - 1)
        } else {
            before
        }
    }
}

/// The positions as mathematical integers.
pub open spec fn positions(list: Seq<usize>) -> Seq<int> {
    list.map_values(|i: usize| i as int)
}

/// Every position is below the bound.
pub open spec fn below(list: Seq<usize>, n: int) -> bool {
    forall|i: int| 0 <= i < list.len() ==> (#[trigger] list[i]) < n
}

fn find_rank(requirements: &[ProcessRequirement], i: usize) -> (r: u32)
    requires
        i < requirements@.len(),
    ensures
        r == rank_of(requirements@, i as int),
{
    match &requirements[i].identity {
        ProcessRequirementIdentity::ModelRank { rank, .. } => *rank,
        ProcessRequirementIdentity::Frontend { .. } => 0,
    }
}

fn insert_rank(requirements: &[ProcessRequirement], sorted: &mut Vec<usize>, i: usize)
    requires
        i < requirements@.len(),
        below(old(sorted)@, requirements@.len() as int),
    ensures
        below(final(sorted)@, requirements@.len() as int),
        positions(final(sorted)@) == with_rank(requirements@, positions(old(sorted)@), i as int),
    decreases old(sorted)@.len(),
{
    let ghost before = sorted@;
    if sorted.len() == 0 {
        sorted.push(i);
        assert(positions(sorted@) =~= seq![i as int]);
        return;
    }
    let last: usize = sorted[sorted.len() - 1];
    assert(positions(before).last() == last);
    if find_rank(requirements, last) <= find_rank(requirements, i) {
        sorted.push(i);
        assert(positions(sorted@) =~= positions(before).push(i as int));
        return;
    }
    let _ = sorted.pop();
    assert(positions(sorted@) =~= positions(before).drop_last());
    insert_rank(requirements, sorted, i);
    let ghost middle = sorted@;
    sorted.push(last);
    assert(positions(sorted@) =~= positions(middle).push(last as int));
}

fn collect_ranks(requirements: &[ProcessRequirement], role: &str, index: u32) -> (r: Vec<usize>)
    ensures
        below(r@, requirements@.len() as int),
        positions(r@) == ranks_sorted(
            requirements@,
            requirements@.len() as int,
            role@,
            index,
        ),
{
    let mut out: Vec<usize> = Vec::new();
    let mut i: usize = 0;
    assert(positions(out@) =~= Seq::empty());
    while i < requirements.len()
        invariant
            i <= requirements@.len(),
            below(out@, requirements@.len() as int),
            positions(out@) == ranks_sorted(requirements@, i as int, role@, index),
        decreases requirements@.len() - i,
    {
        let own = match &requirements[i].identity {
            ProcessRequirementIdentity::ModelRank { replica, .. } => same(
                replica.role_id.as_str(),
                role,
            ) && replica.replica_index == index,
            ProcessRequirementIdentity::Frontend { .. } => false,
        };
        if own {
            insert_rank(requirements, &mut out, i);
        }
        i += 1;
    }
    out
}

// ---------------------------------------------------------------------------
// Taking processes

/// The process has the id.
pub open spec fn plan_named(processes: Seq<ProcessPlan>, id: Seq<char>) -> spec_fn(int) -> bool {
    |i: int| processes[i].id@ == id
}

/// The place of the process with the id.
pub open spec fn plan_index(processes: Seq<ProcessPlan>, id: Seq<char>) -> Option<int> {
    first_index(processes.len(), plan_named(processes, id))
}

/// The ids at positions of the required processes.
pub open spec fn ids_at(requirements: Seq<ProcessRequirement>, list: Seq<int>) -> Seq<Seq<char>> {
    list.map_values(|i: int| requirements[i].id@)
}

/// The process with the id exists and was not taken before.
pub open spec fn available(processes: Seq<ProcessPlan>, taken: Seq<Seq<char>>, id: Seq<char>) -> bool {
    plan_index(processes, id) is Some && !taken.contains(id)
}

/// The position among ids whose process is not available.
pub open spec fn missing_at(
    processes: Seq<ProcessPlan>,
    taken: Seq<Seq<char>>,
    ids: Seq<Seq<char>>,
) -> spec_fn(int) -> bool {
    |i: int| !available(processes, taken + ids.take(i), ids[i])
}

/// The place of the process with the id.
pub fn find_plan(processes: &[ProcessPlan], id: &str) -> (r: Option<usize>)
    ensures
        match r {
            Some(i) => i < processes@.len() && plan_index(processes@, id@) == Some(i as int),
            None => plan_index(processes@, id@) is None,
        },
{
    let ghost p = plan_named(processes@, id@);
    let mut i: usize = 0;
    while i < processes.len()
        invariant
            i <= processes@.len(),
            p == plan_named(processes@, id@),
            forall|j: int| 0 <= j < i ==> !(#[trigger] p(j)),
        decreases processes@.len() - i,
    {
        if same(processes[i].id.as_str(), id) {
            proof {
                lemma_first_index_is(processes@.len(), p, i as int);
            }
            return Some(i);
        }
        assert(!p(i as int));
        i += 1;
    }
    proof {
        lemma_first_index(processes@.len(), p);
    }
    None
}

/// The texts hold the id.
proof fn lemma_lists_texts(list: Seq<String>, id: Seq<char>)
    ensures
        lists(list, id) == texts(list).contains(id),
{
    if lists(list, id) {
        let i = choose|i: int| 0 <= i < list.len() && (#[trigger] list[i])@ == id;
        assert(texts(list)[i] == id);
    } else if texts(list).contains(id) {
        let i = choose|i: int| 0 <= i < texts(list).len() && texts(list)[i] == id;
        assert(list[i]@ == id);
    }
}

/// The places of the processes.
pub open spec fn places_are(
    places: Seq<usize>,
    processes: Seq<ProcessPlan>,
    ids: Seq<Seq<char>>,
) -> bool {
    &&& places.len() == ids.len()
    &&& forall|i: int|
        0 <= i < places.len() ==> plan_index(processes, #[trigger] ids[i]) == Some(
            places[i] as int,
        )
}

/// Takes the processes with the ids of the given positions, or says at which of
/// them there is none left.
fn take_processes(
    processes: &[ProcessPlan],
    requirements: &[ProcessRequirement],
    list: &[usize],
    taken: &mut Vec<String>,
) -> (r: Result<Vec<usize>, usize>)
    requires
        below(list@, requirements@.len() as int),
    ensures
        ({
            let ids = ids_at(requirements@, positions(list@));
            match first_index(ids.len(), missing_at(processes@, texts(old(taken)@), ids)) {
                Some(i) => r == Err::<Vec<usize>, usize>(i as usize) && 0 <= i < list@.len(),
                None => {
                    &&& r is Ok
                    &&& places_are(r->Ok_0@, processes@, ids)
                    &&& texts(final(taken)@) == texts(old(taken)@) + ids
                },
            }
        }),
{
    let ghost ids = ids_at(requirements@, positions(list@));
    let ghost start = texts(taken@);
    let ghost p = missing_at(processes@, start, ids);
    let mut out: Vec<usize> = Vec::new();
    let mut i: usize = 0;
    assert(start + ids.take(0) =~= start);
    while i < list.len()
        invariant
            i <= list@.len(),
            below(list@, requirements@.len() as int),
            ids == ids_at(requirements@, positions(list@)),
            ids.len() == list@.len(),
            start == texts(old(taken)@),
            p == missing_at(processes@, start, ids),
            texts(taken@) == start + ids.take(i as int),
            out@.len() == i,
            forall|j: int| 0 <= j < i ==> !(#[trigger] p(j)),
            forall|j: int|
                0 <= j < i ==> plan_index(processes@, #[trigger] ids[j]) == Some(out@[j] as int),
        decreases list@.len() - i,
    {
        let requirement = &requirements[list[i]];
        assert(ids[i as int] == requirement.id@);
        proof {
            lemma_lists_texts(taken@, requirement.id@);
        }
        let found = if list_contains(taken.as_slice(), requirement.id.as_str()) {
            None
        } else {
            find_plan(processes, requirement.id.as_str())
        };
        match found {
            None => {
                proof {
                    assert(p(i as int));
                    lemma_first_index_is(ids.len(), p, i as int);
                }
                return Err(i);
            },
            Some(place) => {
                assert(!p(i as int));
                let ghost before = texts(taken@);
                taken.push(requirement.id.clone());
                out.push(place);
                proof {
                    assert(texts(taken@) =~= before.push(ids[i as int]));
                    assert(start + ids.take(i + 1) =~= (start + ids.take(i as int)).push(
                        ids[i as int],
                    ));
                }
            },
        }
        i += 1;
    }
    proof {
        lemma_first_index(ids.len(), p);
        assert(ids.take(i as int) =~= ids);
    }
    Ok(out)
}

// ---------------------------------------------------------------------------
// Replicas and roles

/// The ids of a replica's ranks, by rank.
pub open spec fn replica_ids(
    requirements: Seq<ProcessRequirement>,
    replica: ServeReplicaRequirement,
    role: Seq<char>,
) -> Seq<Seq<char>> {
    ids_at(
        requirements,
        ranks_sorted(requirements, requirements.len() as int, role, replica.replica_index),
    )
}

/// The ids taken by the replicas of a role among the first ones.
pub open spec fn role_ids(
    requirements: Seq<ProcessRequirement>,
    replicas: Seq<ServeReplicaRequirement>,
    role: Seq<char>,
) -> Seq<Seq<char>>
    decreases replicas.len(),
{
    if replicas.len() == 0 {
        Seq::empty()
    } else {
        let before = role_ids(requirements, replicas.drop_last(), role);
        if replicas.last().role_id@ == role {
            before + replica_ids(requirements, replicas.last(), role)
        } else {
            before
        }
    }
}

/// The ids taken by the first roles.
pub open spec fn roles_ids(
    requirements: Seq<ProcessRequirement>,
    plan: PlanServeResult,
    n: int,
) -> Seq<Seq<char>>
    decreases n,
{
    if n <= 0 {
        Seq::empty()
    } else {
        roles_ids(requirements, plan, n - 1) + role_ids(
            requirements,
            plan.replicas@,
            plan.roles@[n - 1].id@,
        )
    }
}

/// Why the replica at a position is refused as part of a role.
pub open spec fn replica_hierarchy_fault(
    requirements: Seq<ProcessRequirement>,
    processes: Seq<ProcessPlan>,
    replicas: Seq<ServeReplicaRequirement>,
    taken: Seq<Seq<char>>,
    role: Seq<char>,
) -> spec_fn(int) -> Option<Seq<char>> {
    |k: int|
        {
            let replica = replicas[k];
            if replica.role_id@ != role {
                None
            } else {
                let ids = replica_ids(requirements, replica, role);
                let before = taken + role_ids(requirements, replicas.take(k), role);
                if ids.len() == 0 {
                    Some("resolved replica "@ + debug_text(replica.id@) + " contains no ranks"@)
                } else {
                    match first_index(ids.len(), missing_at(processes, before, ids)) {
                        Some(i) => Some(
                            "resolved replica "@ + debug_text(replica.id@)
                                + " references missing process "@ + debug_text(ids[i]),
                        ),
                        None => None,
                    }
                }
            }
        }
}

/// The replica is planned with its ranks, the first of which is its entry.
pub open spec fn replica_plan_is(
    plan: RoleReplicaPlan,
    requirements: Seq<ProcessRequirement>,
    processes: Seq<ProcessPlan>,
    replica: ServeReplicaRequirement,
    role: Seq<char>,
) -> bool {
    let ids = replica_ids(requirements, replica, role);
    &&& *plan.replica == replica
    &&& ids.len() > 0
    &&& plan.entry_process@ == ids[0]
    &&& places_are(plan.ranks@, processes, ids)
}

/// The replicas of a role, in their order.
pub open spec fn replicas_of(replicas: Seq<ServeReplicaRequirement>, role: Seq<char>) -> Seq<
    ServeReplicaRequirement,
>
    decreases replicas.len(),
{
    if replicas.len() == 0 {
        Seq::empty()
    } else {
        let before = replicas_of(replicas.drop_last(), role);
        if replicas.last().role_id@ == role {
            before.push(replicas.last())
        } else {
            before
        }
    }
}

/// The replicas of a role are planned, each with its ranks.
pub open spec fn replica_plans_are(
    plans: Seq<RoleReplicaPlan>,
    requirements: Seq<ProcessRequirement>,
    processes: Seq<ProcessPlan>,
    replicas: Seq<ServeReplicaRequirement>,
    role: Seq<char>,
) -> bool {
    let own = replicas_of(replicas, role);
    &&& plans.len() == own.len()
    &&& forall|i: int|
        0 <= i < plans.len() ==> replica_plan_is(
            #[trigger] plans[i],
            requirements,
            processes,
            own[i],
            role,
        )
}

fn plan_replicas<'a>(
    requirements: &[ProcessRequirement],
    processes: &[ProcessPlan],
    replicas: &'a [ServeReplicaRequirement],
    role: &str,
    taken: &mut Vec<String>,
) -> (r: Result<Vec<RoleReplicaPlan<'a>>, InferlabError>)
    ensures
        match first_some(
            replicas@.len(),
            replica_hierarchy_fault(
                requirements@,
                processes@,
                replicas@,
                texts(old(taken)@),
                role@,
            ),
        ) {
            Some(text) => refuses(r, text),
            None => {
                &&& r is Ok
                &&& replica_plans_are(
                    r->Ok_0@,
                    requirements@,
                    processes@,
                    replicas@,
                    role@,
                )
                &&& texts(final(taken)@) == texts(old(taken)@) + role_ids(
                    requirements@,
                    replicas@,
                    role@,
                )
            },
        },
{
    let ghost start = texts(taken@);
    let ghost f = replica_hierarchy_fault(requirements@, processes@, replicas@, start, role@);
    let mut out: Vec<RoleReplicaPlan<'a>> = Vec::new();
    let mut k: usize = 0;
    assert(start + role_ids(requirements@, replicas@.take(0), role@) =~= start);
    while k < replicas.len()
        invariant
            k <= replicas@.len(),
            start == texts(old(taken)@),
            f == replica_hierarchy_fault(requirements@, processes@, replicas@, start, role@),
            first_some(k as nat, f) is None,
            texts(taken@) == start + role_ids(requirements@, replicas@.take(k as int), role@),
            replica_plans_are(
                out@,
                requirements@,
                processes@,
                replicas@.take(k as int),
                role@,
            ),
        decreases replicas@.len() - k,
    {
        let replica = &replicas[k];
        assert(replicas@.take(k + 1).drop_last() =~= replicas@.take(k as int));
        if same(replica.role_id.as_str(), role) {
            let list = collect_ranks(requirements, role, replica.replica_index);
            let ghost ids = replica_ids(requirements@, *replica, role@);
            assert(ids.len() == list@.len());
            if list.len() == 0 {
                proof {
                    lemma_first_some_stays((k + 1) as nat, replicas@.len(), f);
                }
                return invalid_config(
                    crate::text::cat3(
                        "resolved replica ",
                        debug(replica.id.as_str()).as_str(),
                        " contains no ranks",
                    ),
                );
            }
            let entry = requirements[list[0]].id.clone();
            assert(ids[0] == entry@);
            let ghost before = texts(taken@);
            match take_processes(processes, requirements, list.as_slice(), taken) {
                Err(i) => {
                    assert(ids[i as int] == requirements@[list@[i as int] as int].id@);
                    proof {
                        lemma_first_some_stays((k + 1) as nat, replicas@.len(), f);
                    }
                    return invalid_config(
                        cat4(
                            "resolved replica ",
                            debug(replica.id.as_str()).as_str(),
                            " references missing process ",
                            debug(requirements[list[i]].id.as_str()).as_str(),
                        ),
                    );
                },
                Ok(ranks) => {
                    out.push(RoleReplicaPlan { replica, entry_process: entry, ranks });
                    proof {
                        assert(start + role_ids(requirements@, replicas@.take(k + 1), role@)
                            =~= before + ids);
                    }
                },
            }
        }
        k += 1;
    }
    assert(replicas@.take(k as int) =~= replicas@);
    Ok(out)
}

/// The requested role with the id.
pub open spec fn requested_named(inputs: Seq<ServeRoleInput>, id: Seq<char>) -> spec_fn(int) -> bool {
    |i: int| inputs[i].id@ == id
}

/// The requested role with the id.
pub open spec fn requested_index(inputs: Seq<ServeRoleInput>, id: Seq<char>) -> Option<int> {
    first_index(inputs.len(), requested_named(inputs, id))
}

fn find_requested(inputs: &[ServeRoleInput], id: &str) -> (r: Option<usize>)
    ensures
        match r {
            Some(i) => i < inputs@.len() && requested_index(inputs@, id@) == Some(i as int),
            None => requested_index(inputs@, id@) is None,
        },
{
    let ghost p = requested_named(inputs@, id@);
    let mut i: usize = 0;
    while i < inputs.len()
        invariant
            i <= inputs@.len(),
            p == requested_named(inputs@, id@),
            forall|j: int| 0 <= j < i ==> !(#[trigger] p(j)),
        decreases inputs@.len() - i,
    {
        if same(inputs[i].id.as_str(), id) {
            proof {
                lemma_first_index_is(inputs@.len(), p, i as int);
            }
            return Some(i);
        }
        assert(!p(i as int));
        i += 1;
    }
    proof {
        lemma_first_index(inputs@.len(), p);
    }
    None
}

/// Why the role at a position is refused.
pub open spec fn role_hierarchy_fault(
    integration: Seq<char>,
    inputs: Seq<ServeRoleInput>,
    plan: PlanServeResult,
    requirements: Seq<ProcessRequirement>,
    processes: Seq<ProcessPlan>,
) -> spec_fn(int) -> Option<Seq<char>> {
    |i: int|
        {
            let role = plan.roles@[i];
            or_fault(
                match requested_index(inputs, role.id@) {
                    Some(k) => settings_fault(
                        integration,
                        inputs[k].settings,
                        role.effective_settings,
                    ),
                    None => None,
                },
                first_some(
                    plan.replicas@.len(),
                    replica_hierarchy_fault(
                        requirements,
                        processes,
                        plan.replicas@,
                        roles_ids(requirements, plan, i),
                        role.id@,
                    ),
                ),
            )
        }
}

/// The role is planned with its replicas.
pub open spec fn role_plan_is(
    r: RolePlan,
    inputs: Seq<ServeRoleInput>,
    plan: PlanServeResult,
    requirements: Seq<ProcessRequirement>,
    processes: Seq<ProcessPlan>,
    i: int,
) -> bool {
    let role = plan.roles@[i];
    &&& *r.role == role
    &&& match (requested_index(inputs, role.id@), r.declared) {
        (Some(k), Some(declared)) => *declared == inputs[k],
        (None, None) => true,
        _ => false,
    }
    &&& replica_plans_are(r.replicas@, requirements, processes, plan.replicas@, role.id@)
}

fn plan_roles<'a>(
    integration: &str,
    inputs: &'a [ServeRoleInput],
    plan: &'a PlanServeResult,
    requirements: &[ProcessRequirement],
    processes: &[ProcessPlan],
    taken: &mut Vec<String>,
) -> (r: Result<Vec<RolePlan<'a>>, InferlabError>)
    requires
        old(taken)@.len() == 0,
    ensures
        match first_some(
            plan.roles@.len(),
            role_hierarchy_fault(integration@, inputs@, *plan, requirements@, processes@),
        ) {
            Some(text) => refuses(r, text),
            None => {
                &&& r is Ok
                &&& r->Ok_0@.len() == plan.roles@.len()
                &&& forall|i: int|
                    0 <= i < plan.roles@.len() ==> role_plan_is(
                        #[trigger] r->Ok_0@[i],
                        inputs@,
                        *plan,
                        requirements@,
                        processes@,
                        i,
                    )
                &&& texts(final(taken)@) == roles_ids(
                    requirements@,
                    *plan,
                    plan.roles@.len() as int,
                )
            },
        },
{
    let ghost f = role_hierarchy_fault(integration@, inputs@, *plan, requirements@, processes@);
    let mut out: Vec<RolePlan<'a>> = Vec::new();
    let mut i: usize = 0;
    assert(texts(taken@) =~= Seq::empty());
    while i < plan.roles.len()
        invariant
            i <= plan.roles@.len(),
            f == role_hierarchy_fault(integration@, inputs@, *plan, requirements@, processes@),
            first_some(i as nat, f) is None,
            texts(taken@) == roles_ids(requirements@, *plan, i as int),
            out@.len() == i,
            forall|j: int|
                0 <= j < i ==> role_plan_is(
                    #[trigger] out@[j],
                    inputs@,
                    *plan,
                    requirements@,
                    processes@,
                    j,
                ),
        decreases plan.roles@.len() - i,
    {
        let role = &plan.roles[i];
        let declared: Option<&'a ServeRoleInput> = match find_requested(inputs, role.id.as_str()) {
            Some(k) => {
                match validate_effective_settings(
                    &inputs[k].settings,
                    &role.effective_settings,
                    integration,
                ) {
                    Err(error) => {
                        proof {
                            lemma_first_some_stays((i + 1) as nat, plan.roles@.len(), f);
                        }
                        return Err(error);
                    },
                    Ok(()) => {},
                }
                Some(&inputs[k])
            },
            None => None,
        };
        match plan_replicas(
            requirements,
            processes,
            plan.replicas.as_slice(),
            role.id.as_str(),
            taken,
        ) {
            Err(error) => {
                proof {
                    lemma_first_some_stays((i + 1) as nat, plan.roles@.len(), f);
                }
                return Err(error);
            },
            Ok(replicas) => {
                out.push(RolePlan { role, declared, replicas });
            },
        }
        i += 1;
    }
    Ok(out)
}

// ---------------------------------------------------------------------------
// The hierarchy

/// The positions of the frontends among the first processes.
pub open spec fn frontends(requirements: Seq<ProcessRequirement>, n: int) -> Seq<int>
    decreases n,
{
    if n <= 0 {
        Seq::empty()
    } else if requirements[n - 1].identity is Frontend {
        frontends(requirements, n - 1).push(n - 1)
    } else {
        frontends(requirements, n - 1)
    }
}

fn collect_frontends(requirements: &[ProcessRequirement]) -> (r: Vec<usize>)
    ensures
        below(r@, requirements@.len() as int),
        positions(r@) == frontends(requirements@, requirements@.len() as int),
{
    let mut out: Vec<usize> = Vec::new();
    let mut i: usize = 0;
    assert(positions(out@) =~= Seq::empty());
    while i < requirements.len()
        invariant
            i <= requirements@.len(),
            below(out@, requirements@.len() as int),
            positions(out@) == frontends(requirements@, i as int),
        decreases requirements@.len() - i,
    {
        match &requirements[i].identity {
            ProcessRequirementIdentity::Frontend { .. } => {
                let ghost before = positions(out@);
                out.push(i);
                assert(positions(out@) =~= before.push(i as int));
            },
            ProcessRequirementIdentity::ModelRank { .. } => {},
        }
        i += 1;
    }
    out
}

/// Two processes have the same id.
pub open spec fn repeated_ids(processes: Seq<ProcessPlan>) -> bool {
    exists|i: int, j: int|
        0 <= i < j < processes.len() && (#[trigger] processes[i]).id@ == (
        #[trigger] processes[j]).id@
}

fn check_repeated_ids(processes: &[ProcessPlan]) -> (r: bool)
    ensures
        r == repeated_ids(processes@),
{
    let mut j: usize = 0;
    while j < processes.len()
        invariant
            j <= processes@.len(),
            forall|a: int, b: int|
                0 <= a < b < j ==> (#[trigger] processes@[a]).id@ != (
                #[trigger] processes@[b]).id@,
        decreases processes@.len() - j,
    {
        let mut i: usize = 0;
        while i < j
            invariant
                i <= j < processes@.len(),
                forall|a: int| 0 <= a < i ==> (#[trigger] processes@[a]).id@ != processes@[j as int].id@,
            decreases j - i,
        {
            if same(processes[i].id.as_str(), processes[j].id.as_str()) {
                assert(processes@[i as int].id@ == processes@[j as int].id@);
                return true;
            }
            i += 1;
        }
        j += 1;
    }
    false
}

/// A process was not taken.
pub open spec fn left_over(processes: Seq<ProcessPlan>, taken: Seq<Seq<char>>) -> bool {
    exists|i: int| 0 <= i < processes.len() && !taken.contains((#[trigger] processes[i]).id@)
}

fn check_left_over(processes: &[ProcessPlan], taken: &[String]) -> (r: bool)
    ensures
        r == left_over(processes@, texts(taken@)),
{
    let mut i: usize = 0;
    while i < processes.len()
        invariant
            i <= processes@.len(),
            forall|j: int| 0 <= j < i ==> texts(taken@).contains((#[trigger] processes@[j]).id@),
        decreases processes@.len() - i,
    {
        proof {
            lemma_lists_texts(taken@, processes@[i as int].id@);
        }
        if !list_contains(taken, processes[i].id.as_str()) {
            assert(!texts(taken@).contains(processes@[i as int].id@));
            return true;
        }
        i += 1;
    }
    false
}

/// Why the frontend is refused, or a process is left over.
pub open spec fn frontend_hierarchy_fault(
    plan: PlanServeResult,
    requirements: Seq<ProcessRequirement>,
    processes: Seq<ProcessPlan>,
) -> Option<Seq<char>> {
    let taken = roles_ids(requirements, plan, plan.roles@.len() as int);
    let ids = ids_at(requirements, frontends(requirements, requirements.len() as int));
    match first_index(ids.len(), missing_at(processes, taken, ids)) {
        Some(i) => Some(
            "resolved frontend component references missing process "@ + debug_text(ids[i]),
        ),
        None => if plan.gateway is Some && ids.len() != 1 {
            Some(
                "current protocol requires one frontend process, resolved "@ + decimal(ids.len()),
            )
        } else if plan.gateway is None && ids.len() != 0 {
            Some("resolved frontend processes without a Gateway component"@)
        } else if left_over(processes, taken + ids) {
            Some("resolved topology contains a process outside its owning hierarchy"@)
        } else {
            None
        },
    }
}

/// Why the processes form no hierarchy.
pub open spec fn hierarchy_fault(
    integration: Seq<char>,
    inputs: Seq<ServeRoleInput>,
    plan: PlanServeResult,
    requirements: Seq<ProcessRequirement>,
    processes: Seq<ProcessPlan>,
) -> Option<Seq<char>> {
    if repeated_ids(processes) {
        Some("resolved topology contains duplicate process identities"@)
    } else {
        or_fault(
            first_some(
                plan.roles@.len(),
                role_hierarchy_fault(integration, inputs, plan, requirements, processes),
            ),
            frontend_hierarchy_fault(plan, requirements, processes),
        )
    }
}

/// The frontend is planned with the one process that runs it.
pub open spec fn frontend_plan_is(
    frontend: Option<FrontendPlan>,
    plan: PlanServeResult,
    requirements: Seq<ProcessRequirement>,
    processes: Seq<ProcessPlan>,
) -> bool {
    match (plan.gateway, frontend) {
        (None, None) => true,
        (Some(gateway), Some(frontend)) => {
            let ids = ids_at(requirements, frontends(requirements, requirements.len() as int));
            &&& *frontend.gateway == gateway
            &&& match (plan.pd_router, frontend.pd_router) {
                (Some(planned), Some(router)) => *router == planned,
                (None, None) => true,
                _ => false,
            }
            &&& ids.len() == 1
            &&& plan_index(processes, ids[0]) == Some(frontend.process as int)
        },
        _ => false,
    }
}

/// Every process belongs to one rank of one replica of one role, or runs the
/// frontend.
pub fn assemble_process_hierarchy<'a>(
    integration: &str,
    inputs: &'a [ServeRoleInput],
    plan: &'a PlanServeResult,
    requirements: &[ProcessRequirement],
    processes: &[ProcessPlan],
) -> (r: Result<(Vec<RolePlan<'a>>, Option<FrontendPlan<'a>>), InferlabError>)
    ensures
        match hierarchy_fault(integration@, inputs@, *plan, requirements@, processes@) {
            Some(text) => refuses(r, text),
            None => {
                &&& r is Ok
                &&& r->Ok_0.0@.len() == plan.roles@.len()
                &&& forall|i: int|
                    0 <= i < plan.roles@.len() ==> role_plan_is(
                        #[trigger] r->Ok_0.0@[i],
                        inputs@,
                        *plan,
                        requirements@,
                        processes@,
                        i,
                    )
                &&& frontend_plan_is(r->Ok_0.1, *plan, requirements@, processes@)
            },
        },
{
    if check_repeated_ids(processes) {
        return invalid_config(
            "resolved topology contains duplicate process identities".to_owned(),
        );
    }
    let mut taken: Vec<String> = Vec::new();
    let roles = match plan_roles(integration, inputs, plan, requirements, processes, &mut taken) {
        Err(error) => {
            return Err(error);
        },
        Ok(roles) => roles,
    };
    let list = collect_frontends(requirements);
    let ghost ids = ids_at(requirements@, frontends(requirements@, requirements@.len() as int));
    assert(ids.len() == list@.len());
    let places = match take_processes(processes, requirements, list.as_slice(), &mut taken) {
        Err(i) => {
            assert(ids[i as int] == requirements@[list@[i as int] as int].id@);
            return invalid_config(
                cat2(
                    "resolved frontend component references missing process ",
                    debug(requirements[list[i]].id.as_str()).as_str(),
                ),
            );
        },
        Ok(places) => places,
    };
    let frontend: Option<FrontendPlan<'a>> = match &plan.gateway {
        Some(gateway) => {
            if list.len() != 1 {
                return invalid_config(
                    cat2(
                        "current protocol requires one frontend process, resolved ",
                        to_decimal(list.len() as u64).as_str(),
                    ),
                );
            }
            assert(plan_index(processes@, ids[0]) == Some(places@[0] as int));
            Some(
                FrontendPlan {
                    gateway,
                    pd_router: match &plan.pd_router {
                        Some(router) => Some(router),
                        None => None,
                    },
                    process: places[0],
                },
            )
        },
        None => {
            if list.len() != 0 {
                return invalid_config(
                    "resolved frontend processes without a Gateway component".to_owned(),
                );
            }
            None
        },
    };
    if check_left_over(processes, taken.as_slice()) {
        return invalid_config(
            "resolved topology contains a process outside its owning hierarchy".to_owned(),
        );
    }
    Ok((roles, frontend))
}

// ---------------------------------------------------------------------------
// Laws

/// Each id names a process, and none stands twice.
pub open spec fn placed_once(processes: Seq<ProcessPlan>, taken: Seq<Seq<char>>) -> bool {
    &&& forall|i: int, j: int|
        0 <= i < j < taken.len() ==> #[trigger] taken[i] != #[trigger] taken[j]
    &&& forall|i: int| 0 <= i < taken.len() ==> plan_index(processes, #[trigger] taken[i]) is Some
}

/// What is taken once stays so with more that is available.
proof fn lemma_placed_once(processes: Seq<ProcessPlan>, taken: Seq<Seq<char>>, ids: Seq<Seq<char>>)
    requires
        placed_once(processes, taken),
        first_index(ids.len(), missing_at(processes, taken, ids)) is None,
    ensures
        placed_once(processes, taken + ids),
{
    let p = missing_at(processes, taken, ids);
    lemma_first_index(ids.len(), p);
    let all = taken + ids;
    assert forall|j: int| 0 <= j < ids.len() implies plan_index(processes, #[trigger] ids[j]) is Some
        && !(taken + ids.take(j)).contains(ids[j]) by {
        assert(!p(j));
    }
    assert forall|i: int, j: int| 0 <= i < j < all.len() implies #[trigger] all[i]
        != #[trigger] all[j] by {
        if j >= taken.len() {
            let k = j - taken.len();
            let before = taken + ids.take(k);
            assert(all[j] == ids[k]);
            assert(before[i] == all[i]);
        }
    }
    assert forall|i: int| 0 <= i < all.len() implies plan_index(processes, #[trigger] all[i])
        is Some by {
        if i >= taken.len() {
            assert(all[i] == ids[i - taken.len()]);
        }
    }
}

/// The replicas of a role take each process once.
proof fn lemma_role_placed_once(
    requirements: Seq<ProcessRequirement>,
    processes: Seq<ProcessPlan>,
    replicas: Seq<ServeReplicaRequirement>,
    taken: Seq<Seq<char>>,
    role: Seq<char>,
    n: int,
)
    requires
        0 <= n <= replicas.len(),
        placed_once(processes, taken),
        first_some(
            replicas.len(),
            replica_hierarchy_fault(requirements, processes, replicas, taken, role),
        ) is None,
    ensures
        placed_once(processes, taken + role_ids(requirements, replicas.take(n), role)),
    decreases n,
{
    let f = replica_hierarchy_fault(requirements, processes, replicas, taken, role);
    if n == 0 {
        assert(taken + role_ids(requirements, replicas.take(0), role) =~= taken);
    } else {
        lemma_role_placed_once(requirements, processes, replicas, taken, role, n - 1);
        let before = taken + role_ids(requirements, replicas.take(n - 1), role);
        assert(replicas.take(n).drop_last() =~= replicas.take(n - 1));
        if replicas[n - 1].role_id@ == role {
            let ids = replica_ids(requirements, replicas[n - 1], role);
            lemma_first_some_none(replicas.len(), f);
            assert(f(n - 1) is None);
            lemma_placed_once(processes, before, ids);
            assert(taken + role_ids(requirements, replicas.take(n), role) =~= before + ids);
        }
    }
}

/// The roles take each process once.
proof fn lemma_roles_placed_once(
    integration: Seq<char>,
    inputs: Seq<ServeRoleInput>,
    plan: PlanServeResult,
    requirements: Seq<ProcessRequirement>,
    processes: Seq<ProcessPlan>,
    n: int,
)
    requires
        0 <= n <= plan.roles@.len(),
        first_some(
            plan.roles@.len(),
            role_hierarchy_fault(integration, inputs, plan, requirements, processes),
        ) is None,
    ensures
        placed_once(processes, roles_ids(requirements, plan, n)),
    decreases n,
{
    if n > 0 {
        let f = role_hierarchy_fault(integration, inputs, plan, requirements, processes);
        lemma_roles_placed_once(integration, inputs, plan, requirements, processes, n - 1);
        lemma_first_some_none(plan.roles@.len(), f);
        assert(f(n - 1) is None);
        let replicas = plan.replicas@;
        lemma_role_placed_once(
            requirements,
            processes,
            replicas,
            roles_ids(requirements, plan, n - 1),
            plan.roles@[n - 1].id@,
            replicas.len() as int,
        );
        assert(replicas.take(replicas.len() as int) =~= replicas);
    }
}

/// In an accepted hierarchy every process has one place: it is a rank of one
/// replica of one role, or it runs the frontend, and no place is left without its
/// process.
pub proof fn law_every_process_has_one_place(
    integration: Seq<char>,
    inputs: Seq<ServeRoleInput>,
    plan: PlanServeResult,
    requirements: Seq<ProcessRequirement>,
    processes: Seq<ProcessPlan>,
)
    requires
        hierarchy_fault(integration, inputs, plan, requirements, processes) is None,
    ensures
        ({
            let taken = roles_ids(requirements, plan, plan.roles@.len() as int) + ids_at(
                requirements,
                frontends(requirements, requirements.len() as int),
            );
            &&& placed_once(processes, taken)
            &&& forall|i: int|
                0 <= i < processes.len() ==> taken.contains((#[trigger] processes[i]).id@)
        }),
{
    let n = plan.roles@.len() as int;
    lemma_roles_placed_once(integration, inputs, plan, requirements, processes, n);
    let ids = ids_at(requirements, frontends(requirements, requirements.len() as int));
    lemma_placed_once(processes, roles_ids(requirements, plan, n), ids);
}

/// The positions of the ranks of a replica are exactly those of its processes, sorted
/// by rank.
pub proof fn law_ranks_are_sorted(
    requirements: Seq<ProcessRequirement>,
    n: int,
    role: Seq<char>,
    index: u32,
)
    requires
        0 <= n <= requirements.len(),
    ensures
        ({
            let sorted = ranks_sorted(requirements, n, role, index);
            &&& forall|a: int, b: int|
                0 <= a < b < sorted.len() ==> rank_of(requirements, #[trigger] sorted[a])
                    <= rank_of(requirements, #[trigger] sorted[b])
            &&& forall|a: int|
                0 <= a < sorted.len() ==> 0 <= (#[trigger] sorted[a]) < n && (
                requirements[sorted[a]].identity matches ProcessRequirementIdentity::ModelRank {
                    replica,
                    ..
                } && replica.role_id@ == role && replica.replica_index == index)
            &&& forall|i: int|
                0 <= i < n && rank_in(requirements, i, role, index) ==> #[trigger] sorted.contains(i)
        }),
    decreases n,
{
    if n > 0 {
        law_ranks_are_sorted(requirements, n - 1, role, index);
        let before = ranks_sorted(requirements, n - 1, role, index);
        if rank_in(requirements, n - 1, role, index) {
            lemma_with_rank(requirements, before, n - 1);
            let sorted = ranks_sorted(requirements, n, role, index);
            assert forall|i: int| 0 <= i < n && rank_in(
                requirements,
                i,
                role,
                index,
            ) implies #[trigger] sorted.contains(i) by {
                if i < n - 1 {
                    assert(before.contains(i));
                }
            }
            assert forall|a: int| 0 <= a < sorted.len() implies 0 <= (#[trigger] sorted[a]) < n && (
            requirements[sorted[a]].identity matches ProcessRequirementIdentity::ModelRank {
                replica,
                ..
            } && replica.role_id@ == role && replica.replica_index == index) by {
                assert(sorted.contains(sorted[a]));
                if sorted[a] != n - 1 {
                    let k = choose|k: int| 0 <= k < before.len() && before[k] == sorted[a];
                    assert(0 <= before[k] < n - 1);
                }
            }
        }
    }
}

/// One more position keeps the order, and nothing is lost or added beside it.
proof fn lemma_with_rank(requirements: Seq<ProcessRequirement>, sorted: Seq<int>, i: int)
    requires
        forall|a: int, b: int|
            0 <= a < b < sorted.len() ==> rank_of(requirements, #[trigger] sorted[a]) <= rank_of(
                requirements,
                #[trigger] sorted[b],
            ),
    ensures
        ({
            let all = with_rank(requirements, sorted, i);
            &&& all.len() == sorted.len() + 1
            &&& forall|a: int, b: int|
                0 <= a < b < all.len() ==> rank_of(requirements, #[trigger] all[a]) <= rank_of(
                    requirements,
                    #[trigger] all[b],
                )
            &&& forall|x: int| #[trigger] all.contains(x) <==> x == i || sorted.contains(x)
        }),
    decreases sorted.len(),
{
    let all = with_rank(requirements, sorted, i);
    if sorted.len() == 0 {
        assert(all[0] == i);
    } else if rank_of(requirements, sorted.last()) <= rank_of(requirements, i) {
        assert forall|a: int, b: int| 0 <= a < b < all.len() implies rank_of(
            requirements,
            #[trigger] all[a],
        ) <= rank_of(requirements, #[trigger] all[b]) by {
            if b == sorted.len() {
                assert(all[a] == sorted[a]);
                assert(rank_of(requirements, sorted[a]) <= rank_of(
                    requirements,
                    sorted[sorted.len() - 1],
                ));
            } else {
                assert(all[a] == sorted[a] && all[b] == sorted[b]);
            }
        }
        assert forall|x: int| #[trigger] all.contains(x) <==> x == i || sorted.contains(x) by {
            if sorted.contains(x) {
                let k = choose|k: int| 0 <= k < sorted.len() && sorted[k] == x;
                assert(all[k] == x);
            }
            assert(all[sorted.len() as int] == i);
            if all.contains(x) {
                let k = choose|k: int| 0 <= k < all.len() && all[k] == x;
                if k < sorted.len() {
                    assert(sorted[k] == x);
                }
            }
        }
    } else {
        let fewer = sorted.drop_last();
        let inner = with_rank(requirements, fewer, i);
        assert forall|a: int, b: int| 0 <= a < b < fewer.len() implies rank_of(
            requirements,
            #[trigger] fewer[a],
        ) <= rank_of(requirements, #[trigger] fewer[b]) by {
            assert(fewer[a] == sorted[a] && fewer[b] == sorted[b]);
        }
        lemma_with_rank(requirements, fewer, i);
        assert(all == inner.push(sorted.last()));
        assert forall|a: int, b: int| 0 <= a < b < all.len() implies rank_of(
            requirements,
            #[trigger] all[a],
        ) <= rank_of(requirements, #[trigger] all[b]) by {
            if b == inner.len() {
                assert(all[a] == inner[a]);
                assert(inner.contains(inner[a]));
                if inner[a] != i {
                    let k = choose|k: int| 0 <= k < fewer.len() && fewer[k] == inner[a];
                    assert(sorted[k] == inner[a]);
                    assert(rank_of(requirements, sorted[k]) <= rank_of(
                        requirements,
                        sorted[sorted.len() - 1],
                    ));
                }
            } else {
                assert(all[a] == inner[a] && all[b] == inner[b]);
            }
        }
        assert forall|x: int| #[trigger] all.contains(x) <==> x == i || sorted.contains(x) by {
            if sorted.contains(x) {
                let k = choose|k: int| 0 <= k < sorted.len() && sorted[k] == x;
                if k < fewer.len() {
                    assert(fewer[k] == x);
                    assert(inner.contains(x));
                    let m = choose|m: int| 0 <= m < inner.len() && inner[m] == x;
                    assert(all[m] == x);
                } else {
                    assert(all[inner.len() as int] == x);
                }
            }
            if x == i {
                assert(inner.contains(i));
                let m = choose|m: int| 0 <= m < inner.len() && inner[m] == i;
                assert(all[m] == i);
            }
            if all.contains(x) {
                let m = choose|m: int| 0 <= m < all.len() && all[m] == x;
                if m < inner.len() {
                    assert(inner.contains(inner[m]));
                    if x != i {
                        let k = choose|k: int| 0 <= k < fewer.len() && fewer[k] == x;
                        assert(sorted[k] == x);
                    }
                } else {
                    assert(sorted[sorted.len() - 1] == x);
                }
            }
        }
    }
}

/// The entry of a planned replica is a process of it with the lowest rank, and its
/// places are those of its ranks, in order.
pub proof fn law_entry_of_a_replica_is_its_lowest_rank(
    plan: RoleReplicaPlan,
    requirements: Seq<ProcessRequirement>,
    processes: Seq<ProcessPlan>,
    replica: ServeReplicaRequirement,
    role: Seq<char>,
    i: int,
)
    requires
        replica_plan_is(plan, requirements, processes, replica, role),
        0 <= i < requirements.len(),
        requirements[i].identity matches ProcessRequirementIdentity::ModelRank { replica: of, .. }
            && of.role_id@ == role && of.replica_index == replica.replica_index,
    ensures
        exists|e: int|
            0 <= e < requirements.len() && (#[trigger] requirements[e]).id@ == plan.entry_process@
                && rank_of(requirements, e) <= rank_of(requirements, i) && (
            requirements[e].identity matches ProcessRequirementIdentity::ModelRank { replica: of, .. }
                && of.role_id@ == role && of.replica_index == replica.replica_index),
{
    let n = requirements.len() as int;
    let sorted = ranks_sorted(requirements, n, role, replica.replica_index);
    law_ranks_are_sorted(requirements, n, role, replica.replica_index);
    assert(rank_in(requirements, i, role, replica.replica_index));
    assert(sorted.contains(i));
    let k = choose|k: int| 0 <= k < sorted.len() && sorted[k] == i;
    let e = sorted[0];
    assert(ids_at(requirements, sorted)[0] == requirements[e].id@);
    assert(rank_of(requirements, sorted[0]) <= rank_of(requirements, sorted[k]));
}

/// A planned role is the role of the plan at its place, with the input that was requested
/// for it, and has one plan for each of its replicas.
pub proof fn law_planned_role_is_that_of_the_plan(
    r: RolePlan,
    inputs: Seq<ServeRoleInput>,
    plan: PlanServeResult,
    requirements: Seq<ProcessRequirement>,
    processes: Seq<ProcessPlan>,
    i: int,
)
    requires
        role_plan_is(r, inputs, plan, requirements, processes, i),
    ensures
        *r.role == plan.roles@[i],
        r.replicas@.len() == replicas_of(plan.replicas@, plan.roles@[i].id@).len(),
        r.declared matches Some(declared) ==> inputs.contains(*declared) && declared.id@
            == plan.roles@[i].id@,
        r.declared is None ==> forall|k: int|
            0 <= k < inputs.len() ==> (#[trigger] inputs[k]).id@ != plan.roles@[i].id@,
{
    let named = requested_named(inputs, plan.roles@[i].id@);
    crate::search::lemma_first_index(inputs.len(), named);
    if r.declared is None {
        assert forall|k: int| 0 <= k < inputs.len() implies (#[trigger] inputs[k]).id@
            != plan.roles@[i].id@ by {
            assert(!named(k));
        }
    }
}

/// There is a frontend exactly where the plan has a gateway; it is that gateway, with the
/// router of the plan, and is run by a process of the hierarchy.
pub proof fn law_planned_frontend_is_that_of_the_plan(
    frontend: Option<FrontendPlan>,
    plan: PlanServeResult,
    requirements: Seq<ProcessRequirement>,
    processes: Seq<ProcessPlan>,
)
    requires
        frontend_plan_is(frontend, plan, requirements, processes),
    ensures
        frontend is Some <==> plan.gateway is Some,
        frontend matches Some(found) ==> {
            &&& Some(*found.gateway) == plan.gateway
            &&& found.pd_router is Some <==> plan.pd_router is Some
            &&& found.pd_router matches Some(router) ==> Some(*router) == plan.pd_router
        },
{
}

} // verus!
