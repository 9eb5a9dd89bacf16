//! Planning: an integration's plan, checked against what was asked for and
//! turned into required processes.

use crate::dict::Dict;
use crate::error::{answers, invalid_config, or_fault, refuses, InferlabError};
use crate::protocol::{
    CaptureMechanism, FrontendComponents, FrontendProcessRole, GatewayPlan, KvTransferMechanism,
    PdRouterPlan, PlanServeResult, ReadinessProbe, RenderSource, ServeRoleInput, ServeRoleLink,
    ServeTopology, SuppliedRenderInput,
};
use crate::resolve::requirements::{
    copy_render_inputs, expand_fault, expand_replica_requirements, expanded, explicit, launch_fault,
    links_for_node, links_of, process_offset, referred, uses_explicit_replica_placement,
    validate_launch_dependencies, EffectiveEscapes, FixedDeviceAssignment, ProcessRequirement,
    ProcessRequirementIdentity,
};
use crate::resolve::selection::{parallelism_fault, validate_effective_parallelism};
use crate::resolve::topology::{
    capture_fault, find_public, find_role, public_index, role_index, serve_graph_fault,
    validate_capture_targets, validate_integration_identity, validate_serve_graph,
};
use crate::search::{
    first_index, first_some, lemma_first_index, lemma_first_index_is, lemma_first_some_none,
    lemma_first_some_stays,
};
use crate::text::{
    cat2, cat3, cat4, copy_list, debug, debug_text, list_contains, lists, optional_text, same,
    same_list, texts,
};
use crate::workspace::{PlacementBinding, RankBinding};
use vstd::prelude::*;
use vstd::string::*;

verus! {

/// What was asked of the integration.
pub struct PlanRequest<'e> {
    pub topology: ServeTopology,
    pub gateway_backend: Option<&'e str>,
    pub pd_router_backend: Option<&'e str>,
    pub kv_transfer: Option<KvTransferMechanism>,
    pub roles: &'e [ServeRoleInput],
    pub profiling: Option<CaptureMechanism>,
}

/// A checked plan: the processes that it asks for.
pub struct PlannedServeStage<'a> {
    pub requirements: Vec<ProcessRequirement<'a>>,
    /// The processes whose commands the integration renders.
    pub integration_rendered_process_ids: Vec<String>,
    pub public_process: String,
}

// ---------------------------------------------------------------------------
// Checking

/// Why the answer to the requested role at a position is refused.
pub open spec fn role_answer_fault(
    integration: Seq<char>,
    requested: Seq<ServeRoleInput>,
    plan: PlanServeResult,
) -> spec_fn(int) -> Option<Seq<char>> {
    |i: int|
        {
            match role_index(plan.roles@, requested[i].id@) {
                None => Some(
                    "integration "@ + debug_text(integration) + " omitted Engine role "@
                        + debug_text(requested[i].id@),
                ),
                Some(k) => parallelism_fault(
                    integration,
                    "role "@ + debug_text(requested[i].id@),
                    requested[i].parallelism,
                    plan.roles@[k].effective_parallelism,
                ),
            }
        }
}

/// Why the plan is refused.
pub open spec fn plan_fault(
    integration: Seq<char>,
    request: PlanRequest,
    plan: PlanServeResult,
) -> Option<Seq<char>> {
    or_fault(
        if plan.integration.framework@ == integration {
            None
        } else {
            Some(
                "integration "@ + debug_text(integration) + " returned framework identity "@
                    + debug_text(plan.integration.framework@),
            )
        },
        or_fault(
            serve_graph_fault(
                integration,
                request.topology,
                request.roles@,
                optional_text(request.gateway_backend),
                optional_text(request.pd_router_backend),
                request.kv_transfer,
                plan,
            ),
            or_fault(
                first_some(
                    request.roles@.len(),
                    role_answer_fault(integration, request.roles@, plan),
                ),
                first_some(
                    plan.replicas@.len(),
                    capture_fault(
                        integration,
                        request.profiling,
                        plan.gateway is Some,
                        plan.replicas@,
                    ),
                ),
            ),
        ),
    )
}

fn check_role_answers(
    integration: &str,
    requested: &[ServeRoleInput],
    plan: &PlanServeResult,
) -> (r: Result<(), InferlabError>)
    ensures
        answers(
            r,
            first_some(requested@.len(), role_answer_fault(integration@, requested@, *plan)),
        ),
{
    let ghost f = role_answer_fault(integration@, requested@, *plan);
    let mut i: usize = 0;
    while i < requested.len()
        invariant
            i <= requested@.len(),
            f == role_answer_fault(integration@, requested@, *plan),
            first_some(i as nat, f) is None,
        decreases requested@.len() - i,
    {
        let input = &requested[i];
        let answer = match find_role(plan.roles.as_slice(), input.id.as_str()) {
            None => invalid_config(
                cat4(
                    "integration ",
                    debug(integration).as_str(),
                    " omitted Engine role ",
                    debug(input.id.as_str()).as_str(),
                ),
            ),
            Some(k) => {
                let scope = cat2("role ", debug(input.id.as_str()).as_str());
                validate_effective_parallelism(
                    integration,
                    scope.as_str(),
                    &input.parallelism,
                    &plan.roles[k].effective_parallelism,
                )
            },
        };
        match answer {
            Err(error) => {
                proof {
                    lemma_first_some_stays((i + 1) as nat, requested@.len(), f);
                }
                return Err(error);
            },
            Ok(()) => {},
        }
        i += 1;
    }
    Ok(())
}

/// Refuses a plan of another framework, with a graph other than the one asked
/// for, with other parallelism, or with capture targets that do not fit.
pub fn check_plan(integration: &str, request: &PlanRequest, plan: &PlanServeResult) -> (r: Result<
    (),
    InferlabError,
>)
    ensures
        answers(r, plan_fault(integration@, *request, *plan)),
{
    match validate_integration_identity(integration, plan.integration.framework.as_str()) {
        Err(error) => {
            return Err(error);
        },
        Ok(()) => {},
    }
    match validate_serve_graph(
        integration,
        request.topology,
        request.roles,
        request.gateway_backend,
        request.pd_router_backend,
        request.kv_transfer,
        plan,
    ) {
        Err(error) => {
            return Err(error);
        },
        Ok(()) => {},
    }
    match check_role_answers(integration, request.roles, plan) {
        Err(error) => {
            return Err(error);
        },
        Ok(()) => {},
    }
    validate_capture_targets(
        integration,
        request.profiling,
        plan.gateway.is_some(),
        plan.replicas.as_slice(),
    )
}

// ---------------------------------------------------------------------------
// The frontend

/// The list with those strings added that it does not hold yet.
pub open spec fn merged_names(base: Seq<String>, more: Seq<String>) -> Seq<String>
    decreases more.len(),
{
    if more.len() == 0 {
        base
    } else {
        let before = merged_names(base, more.drop_last());
        if lists(before, more.last()@) {
            before
        } else {
            before.push(more.last())
        }
    }
}

fn merge_names(base: &[String], more: &[String]) -> (r: Vec<String>)
    ensures
        r@ == merged_names(base@, more@),
{
    let mut out = copy_list(base);
    let mut i: usize = 0;
    assert(more@.take(0) =~= Seq::empty());
    while i < more.len()
        invariant
            i <= more@.len(),
            out@ == merged_names(base@, more@.take(i as int)),
        decreases more@.len() - i,
    {
        assert(more@.take(i + 1).drop_last() =~= more@.take(i as int));
        if !list_contains(out.as_slice(), more[i].as_str()) {
            out.push(more[i].clone());
        }
        i += 1;
    }
    assert(more@.take(i as int) =~= more@);
    out
}

/// An input from the file is in the list.
pub open spec fn supplied(inputs: Seq<SuppliedRenderInput>, source_path: Seq<char>) -> bool {
    exists|i: int| 0 <= i < inputs.len() && (#[trigger] inputs[i]).source_path@ == source_path
}

/// The inputs with those added from files that are not supplied yet.
pub open spec fn merged_inputs(
    base: Seq<SuppliedRenderInput>,
    more: Seq<SuppliedRenderInput>,
) -> Seq<SuppliedRenderInput>
    decreases more.len(),
{
    if more.len() == 0 {
        base
    } else {
        let before = merged_inputs(base, more.drop_last());
        if supplied(before, more.last().source_path@) {
            before
        } else {
            before.push(more.last())
        }
    }
}

fn check_supplied(inputs: &[SuppliedRenderInput], source_path: &str) -> (r: bool)
    ensures
        r == supplied(inputs@, source_path@),
{
    let mut i: usize = 0;
    while i < inputs.len()
        invariant
            i <= inputs@.len(),
            forall|j: int| 0 <= j < i ==> (#[trigger] inputs@[j]).source_path@ != source_path@,
        decreases inputs@.len() - i,
    {
        if same(inputs[i].source_path.as_str(), source_path) {
            assert(inputs@[i as int].source_path@ == source_path@);
            return true;
        }
        i += 1;
    }
    false
}

fn merge_inputs(base: &[SuppliedRenderInput], more: &[SuppliedRenderInput]) -> (r: Vec<
    SuppliedRenderInput,
>)
    ensures
        r@ == merged_inputs(base@, more@),
{
    let mut out = copy_render_inputs(base);
    let mut i: usize = 0;
    assert(more@.take(0) =~= Seq::empty());
    while i < more.len()
        invariant
            i <= more@.len(),
            out@ == merged_inputs(base@, more@.take(i as int)),
        decreases more@.len() - i,
    {
        assert(more@.take(i + 1).drop_last() =~= more@.take(i as int));
        if !check_supplied(out.as_slice(), more[i].source_path.as_str()) {
            out.push(more[i].clone());
        }
        i += 1;
    }
    assert(more@.take(i as int) =~= more@);
    out
}

/// The links connect the same ends in the same way.
pub open spec fn same_link(a: ServeRoleLink, b: ServeRoleLink) -> bool {
    match (a, b) {
        (
            ServeRoleLink::RequestRouting { source: s, targets: t },
            ServeRoleLink::RequestRouting { source, targets },
        ) => s@ == source@ && texts(t@) == texts(targets@),
        (
            ServeRoleLink::KvTransfer { source: s, target: t, mechanism: m },
            ServeRoleLink::KvTransfer { source, target, mechanism },
        ) => s@ == source@ && t@ == target@ && m == mechanism,
        (
            ServeRoleLink::Bootstrap { source: s, target: t, port: p },
            ServeRoleLink::Bootstrap { source, target, port },
        ) => s@ == source@ && t@ == target@ && p@ == port@,
        (
            ServeRoleLink::SideChannel { source: s, target: t, port: p },
            ServeRoleLink::SideChannel { source, target, port },
        ) => s@ == source@ && t@ == target@ && p@ == port@,
        _ => false,
    }
}

fn check_same_link(a: &ServeRoleLink, b: &ServeRoleLink) -> (r: bool)
    ensures
        r == same_link(*a, *b),
{
    match (a, b) {
        (
            ServeRoleLink::RequestRouting { source: s, targets: t },
            ServeRoleLink::RequestRouting { source, targets },
        ) => same(s.as_str(), source.as_str()) && same_list(t.as_slice(), targets.as_slice()),
        (
            ServeRoleLink::KvTransfer { source: s, target: t, mechanism: m },
            ServeRoleLink::KvTransfer { source, target, mechanism },
        ) => same(s.as_str(), source.as_str()) && same(t.as_str(), target.as_str()) && *m
            == *mechanism,
        (
            ServeRoleLink::Bootstrap { source: s, target: t, port: p },
            ServeRoleLink::Bootstrap { source, target, port },
        ) => same(s.as_str(), source.as_str()) && same(t.as_str(), target.as_str()) && same(
            p.as_str(),
            port.as_str(),
        ),
        (
            ServeRoleLink::SideChannel { source: s, target: t, port: p },
            ServeRoleLink::SideChannel { source, target, port },
        ) => same(s.as_str(), source.as_str()) && same(t.as_str(), target.as_str()) && same(
            p.as_str(),
            port.as_str(),
        ),
        _ => false,
    }
}

/// The list holds the link.
pub open spec fn holds_link(links: Seq<ServeRoleLink>, link: ServeRoleLink) -> bool {
    exists|i: int| 0 <= i < links.len() && same_link(#[trigger] links[i], link)
}

/// The links with those added that are not there yet.
pub open spec fn merged_links(base: Seq<ServeRoleLink>, more: Seq<ServeRoleLink>) -> Seq<
    ServeRoleLink,
>
    decreases more.len(),
{
    if more.len() == 0 {
        base
    } else {
        let before = merged_links(base, more.drop_last());
        if holds_link(before, more.last()) {
            before
        } else {
            before.push(more.last())
        }
    }
}

fn check_holds_link<'a>(links: &[&'a ServeRoleLink], link: &ServeRoleLink) -> (r: bool)
    ensures
        r == holds_link(referred(links@), *link),
{
    let mut i: usize = 0;
    while i < links.len()
        invariant
            i <= links@.len(),
            forall|j: int| 0 <= j < i ==> !same_link(#[trigger] referred(links@)[j], *link),
        decreases links@.len() - i,
    {
        if check_same_link(links[i], link) {
            assert(same_link(referred(links@)[i as int], *link));
            return true;
        }
        i += 1;
    }
    assert(referred(links@).len() == links@.len());
    false
}

fn merge_links<'a>(base: Vec<&'a ServeRoleLink>, more: &[&'a ServeRoleLink]) -> (r: Vec<
    &'a ServeRoleLink,
>)
    ensures
        referred(r@) == merged_links(referred(base@), referred(more@)),
{
    let ghost start = referred(base@);
    let mut out = base;
    let mut i: usize = 0;
    assert(referred(more@).take(0) =~= Seq::empty());
    while i < more.len()
        invariant
            i <= more@.len(),
            referred(out@) == merged_links(start, referred(more@).take(i as int)),
        decreases more@.len() - i,
    {
        let ghost before = referred(out@);
        assert(referred(more@).take(i + 1).drop_last() =~= referred(more@).take(i as int));
        if !check_holds_link(out.as_slice(), more[i]) {
            out.push(more[i]);
            assert(referred(out@) =~= before.push(*more@[i as int]));
        }
        i += 1;
    }
    assert(referred(more@).take(i as int) =~= referred(more@));
    out
}

/// The rank that an explicit placement binds the gateway to.
pub open spec fn gateway_rank(placement: PlacementBinding) -> Option<RankBinding> {
    match placement.roles.at("gateway"@) {
        Some(binding) => match binding.ranks_at(0) {
            Some(ranks) => if ranks@.len() > 0 {
                Some(ranks@[0])
            } else {
                None
            },
            None => None,
        },
        None => None,
    }
}

/// The ids of the first processes.
pub open spec fn process_ids(requirements: Seq<ProcessRequirement>, n: int) -> Seq<Seq<char>> {
    Seq::new(n as nat, |i: int| requirements[i].id@)
}

/// The process runs the gateway of the plan, fused with its router where there
/// is one, after all engines.
pub open spec fn gateway_is(
    requirements: Seq<ProcessRequirement>,
    n: int,
    plan: PlanServeResult,
    placement: PlacementBinding,
    gateway_inputs: Seq<SuppliedRenderInput>,
    pd_router_inputs: Seq<SuppliedRenderInput>,
) -> bool {
    let p = requirements[n];
    let gateway = plan.gateway->0;
    &&& p.id@ == "gateway"@
    &&& p.identity matches ProcessRequirementIdentity::Frontend {
        process_role,
        components,
        gateway: of,
        pd_router,
        links,
        render_inputs,
    } && {
        &&& process_role == FrontendProcessRole::Gateway
        &&& components == if plan.pd_router is Some {
            FrontendComponents::GatewayPdRouter
        } else {
            FrontendComponents::Gateway
        }
        &&& *of == gateway
        &&& match (plan.pd_router, pd_router) {
            (Some(planned), Some(router)) => *router == planned,
            (None, None) => true,
            _ => false,
        }
        &&& referred(links@) == merged_links(
            links_of(plan.links@, "gateway"@),
            links_of(plan.links@, "pd_router"@),
        )
        &&& render_inputs@ == if plan.pd_router is Some {
            merged_inputs(gateway_inputs, pd_router_inputs)
        } else {
            gateway_inputs
        }
    }
    &&& p.device_count == 0
    &&& p.ports@ == match plan.pd_router {
        Some(router) => merged_names(gateway.ports@, router.ports@),
        None => gateway.ports@,
    }
    &&& *p.readiness == match plan.pd_router {
        Some(router) => router.readiness,
        None => gateway.readiness,
    }
    &&& texts(p.launch_dependencies@) == process_ids(requirements, n)
    &&& p.capture_target is None
    &&& match p.fixed_devices {
        Some(fixed) => explicit(placement) && (gateway_rank(placement) matches Some(rank) && {
            &&& fixed.machine == rank.machine
            &&& fixed.devices@.len() == 0
            &&& fixed.endpoint_port == rank.endpoint_port
        }),
        None => !explicit(placement),
    }
}

fn collect_ids(requirements: &[ProcessRequirement]) -> (r: Vec<String>)
    ensures
        texts(r@) == process_ids(requirements@, requirements@.len() as int),
{
    let mut out: Vec<String> = Vec::new();
    let mut i: usize = 0;
    while i < requirements.len()
        invariant
            i <= requirements@.len(),
            texts(out@) =~= process_ids(requirements@, i as int),
        decreases requirements@.len() - i,
    {
        let ghost before = texts(out@);
        out.push(requirements[i].id.clone());
        assert(texts(out@) =~= before.push(requirements@[i as int].id@));
        i += 1;
    }
    out
}

fn require_gateway<'a>(
    requirements: &[ProcessRequirement<'a>],
    plan: &'a PlanServeResult,
    gateway: &'a GatewayPlan,
    placement: &PlacementBinding,
    gateway_inputs: &[SuppliedRenderInput],
    pd_router_inputs: &[SuppliedRenderInput],
) -> (r: Result<ProcessRequirement<'a>, InferlabError>)
    requires
        plan.gateway == Some(*gateway),
    ensures
        if explicit(*placement) && gateway_rank(*placement) is None {
            refuses(r, "explicit routed placement must bind Gateway process"@)
        } else {
            r is Ok && gateway_is(
                requirements@.push(r->Ok_0),
                requirements@.len() as int,
                *plan,
                *placement,
                gateway_inputs@,
                pd_router_inputs@,
            )
        },
{
    let fixed: Option<FixedDeviceAssignment> = if uses_explicit_replica_placement(placement) {
        let ranks = match placement.roles.get("gateway") {
            Some(binding) => binding.ranks_for_replica(0),
            None => None,
        };
        let bound = match ranks {
            Some(list) => if list.len() > 0 {
                Some(&list[0])
            } else {
                None
            },
            None => None,
        };
        match bound {
            None => {
                return invalid_config(
                    "explicit routed placement must bind Gateway process".to_owned(),
                );
            },
            Some(rank) => Some(
                FixedDeviceAssignment {
                    machine: rank.machine.clone(),
                    devices: Vec::new(),
                    endpoint_port: rank.endpoint_port,
                },
            ),
        }
    } else {
        None
    };
    let (ports, inputs, components, readiness, pd_router): (
        Vec<String>,
        Vec<SuppliedRenderInput>,
        FrontendComponents,
        &'a ReadinessProbe,
        Option<&'a PdRouterPlan>,
    ) = match &plan.pd_router {
        Some(router) => (
            merge_names(gateway.ports.as_slice(), router.ports.as_slice()),
            merge_inputs(gateway_inputs, pd_router_inputs),
            FrontendComponents::GatewayPdRouter,
            &router.readiness,
            Some(router),
        ),
        None => (
            copy_list(gateway.ports.as_slice()),
            copy_render_inputs(gateway_inputs),
            FrontendComponents::Gateway,
            &gateway.readiness,
            None,
        ),
    };
    let links = merge_links(
        links_for_node(plan.links.as_slice(), "gateway"),
        links_for_node(plan.links.as_slice(), "pd_router").as_slice(),
    );
    let dependencies = collect_ids(requirements);
    let process = ProcessRequirement {
        id: "gateway".to_owned(),
        identity: ProcessRequirementIdentity::Frontend {
            process_role: FrontendProcessRole::Gateway,
            components,
            gateway,
            pd_router,
            links,
            render_inputs: inputs,
        },
        device_count: 0,
        ports,
        readiness,
        launch_dependencies: dependencies,
        capture_target: None,
        fixed_devices: fixed,
    };
    proof {
        let all = requirements@.push(process);
        assert(process_ids(all, requirements@.len() as int) =~= process_ids(
            requirements@,
            requirements@.len() as int,
        ));
        assert(all[requirements@.len() as int] == process);
    }
    Ok(process)
}

// ---------------------------------------------------------------------------
// The stage

/// The process is the first rank of the first replica of the role.
pub open spec fn direct_entry(
    requirements: Seq<ProcessRequirement>,
    role: Seq<char>,
) -> spec_fn(int) -> bool {
    |i: int|
        requirements[i].identity matches ProcessRequirementIdentity::ModelRank {
            replica,
            rank,
            ..
        } && replica.role_id@ == role && replica.replica_index == 0 && rank == 0
}

/// Why the checked plan cannot be turned into processes, given those of its
/// engines.
pub open spec fn entry_fault(
    integration: Seq<char>,
    plan: PlanServeResult,
    placement: PlacementBinding,
    engines: Seq<ProcessRequirement>,
) -> Option<Seq<char>> {
    match plan.gateway {
        Some(_) => if explicit(placement) && gateway_rank(placement) is None {
            Some("explicit routed placement must bind Gateway process"@)
        } else {
            None
        },
        None => match public_index(plan.roles@) {
            None => Some(
                "integration "@ + debug_text(integration)
                    + " did not select a direct public Engine"@,
            ),
            Some(i) => if first_index(
                engines.len(),
                direct_entry(engines, plan.roles@[i].id@),
            ) is None {
                Some(
                    "integration "@ + debug_text(integration)
                        + " selected unknown direct public Engine role "@ + debug_text(
                        plan.roles@[i].id@,
                    ),
                )
            } else {
                None
            },
        },
    }
}

fn find_direct_entry(requirements: &[ProcessRequirement], role: &str) -> (r: Option<usize>)
    ensures
        match r {
            Some(i) => i < requirements@.len() && first_index(
                requirements@.len(),
                direct_entry(requirements@, role@),
            ) == Some(i as int),
            None => first_index(requirements@.len(), direct_entry(requirements@, role@)) is None,
        },
{
    let ghost p = direct_entry(requirements@, role@);
    let mut i: usize = 0;
    while i < requirements.len()
        invariant
            i <= requirements@.len(),
            p == direct_entry(requirements@, role@),
            forall|j: int| 0 <= j < i ==> !(#[trigger] p(j)),
        decreases requirements@.len() - i,
    {
        let entry = match &requirements[i].identity {
            ProcessRequirementIdentity::ModelRank { replica, rank, .. } => same(
                replica.role_id.as_str(),
                role,
            ) && replica.replica_index == 0 && *rank == 0,
            ProcessRequirementIdentity::Frontend { .. } => false,
        };
        if entry {
            proof {
                lemma_first_index_is(requirements@.len(), p, i as int);
            }
            return Some(i);
        }
        assert(!p(i as int));
        i += 1;
    }
    proof {
        lemma_first_index(requirements@.len(), p);
    }
    None
}

/// The stage holds the processes of the plan, the engines first.
pub open spec fn stage_is(
    stage: PlannedServeStage,
    plan: PlanServeResult,
    placement: PlacementBinding,
    escapes: EffectiveEscapes,
    role_render_inputs: Dict<Vec<SuppliedRenderInput>>,
    gateway_inputs: Seq<SuppliedRenderInput>,
    pd_router_inputs: Seq<SuppliedRenderInput>,
) -> bool {
    let n = process_offset(plan.replicas@, placement, plan.replicas@.len() as int);
    let all = stage.requirements@;
    let rendered = texts(stage.integration_rendered_process_ids@);
    &&& all.len() == n + if plan.gateway is Some {
        1nat
    } else {
        0nat
    }
    &&& forall|k: int|
        0 <= k < plan.replicas@.len() ==> #[trigger] expanded(
            all,
            plan,
            placement,
            escapes,
            role_render_inputs,
            k,
        )
    &&& match plan.gateway {
        Some(gateway) => {
            &&& gateway_is(all, n as int, plan, placement, gateway_inputs, pd_router_inputs)
            &&& stage.public_process@ == "gateway"@
            &&& rendered == if gateway.render_source == RenderSource::Integration {
                process_ids(all, n as int).push("gateway"@)
            } else {
                process_ids(all, n as int)
            }
        },
        None => {
            &&& public_index(plan.roles@) matches Some(i) && (first_index(
                all.len(),
                direct_entry(all, plan.roles@[i].id@),
            ) matches Some(k) && stage.public_process@ == all[k].id@)
            &&& rendered == process_ids(all, n as int)
        },
    }
}

/// Every replica index of an accepted plan can be counted on from.
proof fn lemma_accepted_indices(integration: Seq<char>, request: PlanRequest, plan: PlanServeResult)
    requires
        plan_fault(integration, request, plan) is None,
    ensures
        forall|i: int|
            0 <= i < plan.replicas@.len() ==> (#[trigger] plan.replicas@[i]).replica_index
                < u32::MAX,
{
    let faults = crate::resolve::topology::replica_fault(integration, plan);
    lemma_first_some_none(plan.replicas@.len(), faults);
    assert forall|i: int| 0 <= i < plan.replicas@.len() implies (
    #[trigger] plan.replicas@[i]).replica_index < u32::MAX by {
        assert(faults(i) is None);
    }
}

/// The processes of a plan: refused where the plan is not what was asked for or
/// does not fit the placement, else the engines and, after them, the gateway.
pub fn plan_integration<'a>(
    integration: &str,
    request: &PlanRequest,
    plan: &'a PlanServeResult,
    placement: &PlacementBinding,
    escapes: &'a EffectiveEscapes,
    role_render_inputs: &Dict<Vec<SuppliedRenderInput>>,
    gateway_inputs: &[SuppliedRenderInput],
    pd_router_inputs: &[SuppliedRenderInput],
) -> (r: Result<PlannedServeStage<'a>, InferlabError>)
    ensures
        match r {
            Ok(stage) => {
                &&& plan_fault(integration@, *request, *plan) is None
                &&& expand_fault(integration@, *plan, *placement) is None
                &&& stage_is(
                    stage,
                    *plan,
                    *placement,
                    *escapes,
                    *role_render_inputs,
                    gateway_inputs@,
                    pd_router_inputs@,
                )
                &&& first_some(
                    stage.requirements@.len(),
                    launch_fault(integration@, stage.requirements@),
                ) is None
            },
            Err(_) => match or_fault(
                plan_fault(integration@, *request, *plan),
                expand_fault(integration@, *plan, *placement),
            ) {
                Some(text) => refuses(r, text),
                None => exists|engines: Seq<ProcessRequirement<'a>>|
                    {
                        &&& engines.len() == process_offset(
                            plan.replicas@,
                            *placement,
                            plan.replicas@.len() as int,
                        )
                        &&& forall|k: int|
                            0 <= k < plan.replicas@.len() ==> #[trigger] expanded(
                                engines,
                                *plan,
                                *placement,
                                *escapes,
                                *role_render_inputs,
                                k,
                            )
                        &&& #[trigger] stage_refused(
                            r,
                            integration@,
                            *plan,
                            *placement,
                            engines,
                            gateway_inputs@,
                            pd_router_inputs@,
                        )
                    },
            },
        },
{
    match check_plan(integration, request, plan) {
        Err(error) => {
            return Err(error);
        },
        Ok(()) => {},
    }
    proof {
        lemma_accepted_indices(integration@, *request, *plan);
    }
    let mut requirements = match expand_replica_requirements(
        integration,
        plan,
        placement,
        escapes,
        role_render_inputs,
    ) {
        Err(error) => {
            return Err(error);
        },
        Ok(requirements) => requirements,
    };
    let ghost engines = requirements@;
    let mut rendered = collect_ids(requirements.as_slice());
    let public_process = match &plan.gateway {
        Some(gateway) => {
            match require_gateway(
                requirements.as_slice(),
                plan,
                gateway,
                placement,
                gateway_inputs,
                pd_router_inputs,
            ) {
                Err(error) => {
                    assert(stage_refused(
                        Err::<PlannedServeStage<'a>, InferlabError>(error),
                        integration@,
                        *plan,
                        *placement,
                        engines,
                        gateway_inputs@,
                        pd_router_inputs@,
                    ));
                    return Err(error);
                },
                Ok(process) => {
                    requirements.push(process);
                },
            }
            if gateway.render_source == RenderSource::Integration {
                let ghost before = texts(rendered@);
                rendered.push("gateway".to_owned());
                assert(texts(rendered@) =~= before.push("gateway"@));
            }
            "gateway".to_owned()
        },
        None => {
            let role = match find_public(plan.roles.as_slice()) {
                None => {
                    let refusal: Result<PlannedServeStage<'a>, InferlabError> = invalid_config(
                        cat3(
                            "integration ",
                            debug(integration).as_str(),
                            " did not select a direct public Engine",
                        ),
                    );
                    assert(stage_refused(
                        refusal,
                        integration@,
                        *plan,
                        *placement,
                        engines,
                        gateway_inputs@,
                        pd_router_inputs@,
                    ));
                    return refusal;
                },
                Some(i) => plan.roles[i].id.as_str(),
            };
            match find_direct_entry(requirements.as_slice(), role) {
                None => {
                    let refusal: Result<PlannedServeStage<'a>, InferlabError> = invalid_config(
                        cat4(
                            "integration ",
                            debug(integration).as_str(),
                            " selected unknown direct public Engine role ",
                            debug(role).as_str(),
                        ),
                    );
                    assert(stage_refused(
                        refusal,
                        integration@,
                        *plan,
                        *placement,
                        engines,
                        gateway_inputs@,
                        pd_router_inputs@,
                    ));
                    return refusal;
                },
                Some(i) => requirements[i].id.clone(),
            }
        },
    };
    proof {
        assert forall|k: int| 0 <= k < plan.replicas@.len() implies #[trigger] expanded(
            requirements@,
            *plan,
            *placement,
            *escapes,
            *role_render_inputs,
            k,
        ) by {
            assert(expanded(engines, *plan, *placement, *escapes, *role_render_inputs, k));
            lemma_expanded_stays(
                engines,
                requirements@,
                *plan,
                *placement,
                *escapes,
                *role_render_inputs,
                k,
            );
        }
        assert(process_ids(requirements@, engines.len() as int) =~= process_ids(
            engines,
            engines.len() as int,
        ));
    }
    match validate_launch_dependencies(integration, requirements.as_slice()) {
        Err(error) => {
            assert(stage_refused(
                Err::<PlannedServeStage<'a>, InferlabError>(error),
                integration@,
                *plan,
                *placement,
                engines,
                gateway_inputs@,
                pd_router_inputs@,
            )) by {
                assert(entry_fault(integration@, *plan, *placement, engines) is None);
                if plan.gateway is Some {
                    assert(requirements@.drop_last() =~= engines);
                }
                assert(stage_list(
                    requirements@,
                    *plan,
                    *placement,
                    engines,
                    gateway_inputs@,
                    pd_router_inputs@,
                ));
            }
            return Err(error);
        },
        Ok(()) => {},
    }
    Ok(
        PlannedServeStage {
            requirements,
            integration_rendered_process_ids: rendered,
            public_process,
        },
    )
}

/// The list is that of the engines with, after them, the gateway where there is
/// one.
pub open spec fn stage_list(
    all: Seq<ProcessRequirement>,
    plan: PlanServeResult,
    placement: PlacementBinding,
    engines: Seq<ProcessRequirement>,
    gateway_inputs: Seq<SuppliedRenderInput>,
    pd_router_inputs: Seq<SuppliedRenderInput>,
) -> bool {
    match plan.gateway {
        Some(_) => all.len() == engines.len() + 1 && all.drop_last() == engines && gateway_is(
            all,
            engines.len() as int,
            plan,
            placement,
            gateway_inputs,
            pd_router_inputs,
        ),
        None => all == engines,
    }
}

/// The result refuses the plan for its entry or for the order of its processes.
pub open spec fn stage_refused<T>(
    r: Result<T, InferlabError>,
    integration: Seq<char>,
    plan: PlanServeResult,
    placement: PlacementBinding,
    engines: Seq<ProcessRequirement>,
    gateway_inputs: Seq<SuppliedRenderInput>,
    pd_router_inputs: Seq<SuppliedRenderInput>,
) -> bool {
    match entry_fault(integration, plan, placement, engines) {
        Some(text) => refuses(r, text),
        None => exists|all: Seq<ProcessRequirement>|
            {
                &&& #[trigger] stage_list(
                    all,
                    plan,
                    placement,
                    engines,
                    gateway_inputs,
                    pd_router_inputs,
                )
                &&& first_some(all.len(), launch_fault(integration, all)) is Some
                &&& refuses(r, first_some(all.len(), launch_fault(integration, all))->0)
            },
    }
}

/// What a list holds of a replica a longer one holds too.
proof fn lemma_expanded_stays(
    short: Seq<ProcessRequirement>,
    long: Seq<ProcessRequirement>,
    plan: PlanServeResult,
    placement: PlacementBinding,
    escapes: EffectiveEscapes,
    role_render_inputs: Dict<Vec<SuppliedRenderInput>>,
    k: int,
)
    requires
        short.len() <= long.len(),
        long.take(short.len() as int) =~= short,
        expanded(short, plan, placement, escapes, role_render_inputs, k),
    ensures
        expanded(long, plan, placement, escapes, role_render_inputs, k),
{
    let from = process_offset(plan.replicas@, placement, k);
    let count = crate::resolve::requirements::rank_count(placement, plan.replicas@[k]);
    assert forall|rank: int| 0 <= rank < count implies crate::resolve::requirements::process_is(
        long[from + rank],
        plan,
        placement,
        escapes,
        role_render_inputs,
        k,
        #[trigger] crate::resolve::requirements::rank_mark(rank),
    ) by {
        assert(long.take(short.len() as int)[from + rank] == long[from + rank]);
    }
}

// ---------------------------------------------------------------------------
// Laws

/// Joining lists of names keeps the first as it is, holds every name of both and no
/// other, and adds none that is there already.
pub proof fn law_merged_names_are_those_of_both(base: Seq<String>, more: Seq<String>, name: Seq<char>)
    ensures
        lists(merged_names(base, more), name) <==> lists(base, name) || lists(more, name),
        merged_names(base, more).len() >= base.len(),
        merged_names(base, more).take(base.len() as int) == base,
        forall|i: int|
            base.len() <= i < merged_names(base, more).len() ==> !lists(
                merged_names(base, more).take(i),
                (#[trigger] merged_names(base, more)[i])@,
            ),
    decreases more.len(),
{
    let all = merged_names(base, more);
    if more.len() == 0 {
        assert(all.take(base.len() as int) =~= base);
        if lists(more, name) {
            let i = choose|i: int| 0 <= i < more.len() && more[i]@ == name;
        }
    } else {
        let fewer = more.drop_last();
        let before = merged_names(base, fewer);
        law_merged_names_are_those_of_both(base, fewer, name);
        assert(all.take(base.len() as int) =~= before.take(base.len() as int));
        if lists(more, name) {
            let i = choose|i: int| 0 <= i < more.len() && more[i]@ == name;
            if i < fewer.len() {
                assert(fewer[i]@ == name);
            }
        }
        if lists(fewer, name) {
            let i = choose|i: int| 0 <= i < fewer.len() && fewer[i]@ == name;
            assert(more[i]@ == name);
        }
        if more.last()@ == name {
            assert(more[more.len() - 1]@ == name);
        }
        if !lists(before, more.last()@) {
            assert(all[before.len() as int] == more.last());
            if lists(before, name) {
                let i = choose|i: int| 0 <= i < before.len() && before[i]@ == name;
                assert(all[i]@ == name);
            }
            if lists(all, name) {
                let i = choose|i: int| 0 <= i < all.len() && all[i]@ == name;
                if i < before.len() {
                    assert(before[i]@ == name);
                }
            }
            assert forall|i: int| base.len() <= i < all.len() implies !lists(
                all.take(i),
                (#[trigger] all[i])@,
            ) by {
                if i < before.len() {
                    assert(all.take(i) =~= before.take(i));
                    assert(all[i] == before[i]);
                } else {
                    assert(all.take(i) =~= before);
                }
            }
        }
    }
}

/// The gateway of a plan is one process behind the engines: it is the process that
/// clients reach, holds no device, is launched after every engine, and is awaited as
/// its router says where it is fused with one.
pub proof fn law_gateway_stands_before_the_engines(
    stage: PlannedServeStage,
    plan: PlanServeResult,
    placement: PlacementBinding,
    escapes: EffectiveEscapes,
    role_render_inputs: Dict<Vec<SuppliedRenderInput>>,
    gateway_inputs: Seq<SuppliedRenderInput>,
    pd_router_inputs: Seq<SuppliedRenderInput>,
    gateway: GatewayPlan,
    i: int,
)
    requires
        stage_is(
            stage,
            plan,
            placement,
            escapes,
            role_render_inputs,
            gateway_inputs,
            pd_router_inputs,
        ),
        plan.gateway == Some(gateway),
        0 <= i < stage.requirements@.len() - 1,
    ensures
        ({
            let p = stage.requirements@.last();
            &&& stage.public_process@ == p.id@
            &&& p.id@ == "gateway"@
            &&& p.identity is Frontend
            &&& p.device_count == 0
            &&& p.capture_target is None
            &&& p.launch_dependencies@.len() == stage.requirements@.len() - 1
            &&& p.launch_dependencies@[i]@ == stage.requirements@[i].id@
            &&& (p.fixed_devices matches Some(fixed) ==> fixed.devices@.len() == 0)
            &&& plan.pd_router is None ==> *p.readiness == gateway.readiness && p.ports@
                == gateway.ports@
            &&& (plan.pd_router matches Some(router) ==> *p.readiness == router.readiness)
            &&& (p.identity matches ProcessRequirementIdentity::Frontend { components, .. } && (
            components == FrontendComponents::GatewayPdRouter <==> plan.pd_router is Some))
        }),
{
    let all = stage.requirements@;
    let n = all.len() - 1;
    let p = all.last();
    assert(texts(p.launch_dependencies@).len() == p.launch_dependencies@.len());
    assert(texts(p.launch_dependencies@)[i] == p.launch_dependencies@[i]@);
    assert(process_ids(all, n)[i] == all[i].id@);
}

/// Without a gateway, clients reach the first rank of the first replica of the role
/// that the plan makes public.
pub proof fn law_direct_engine_is_public(
    stage: PlannedServeStage,
    plan: PlanServeResult,
    placement: PlacementBinding,
    escapes: EffectiveEscapes,
    role_render_inputs: Dict<Vec<SuppliedRenderInput>>,
    gateway_inputs: Seq<SuppliedRenderInput>,
    pd_router_inputs: Seq<SuppliedRenderInput>,
)
    requires
        stage_is(
            stage,
            plan,
            placement,
            escapes,
            role_render_inputs,
            gateway_inputs,
            pd_router_inputs,
        ),
        plan.gateway is None,
    ensures
        exists|k: int|
            0 <= k < stage.requirements@.len() && (#[trigger] stage.requirements@[k]).id@
                == stage.public_process@ && (
            stage.requirements@[k].identity matches ProcessRequirementIdentity::ModelRank {
                replica,
                rank,
                ..
            } && rank == 0 && replica.replica_index == 0 && (public_index(
                plan.roles@,
            ) matches Some(i) && replica.role_id@ == plan.roles@[i].id@)),
{
    let all = stage.requirements@;
    let i = public_index(plan.roles@)->0;
    let entry = direct_entry(all, plan.roles@[i].id@);
    crate::search::lemma_first_index(all.len(), entry);
    let k = first_index(all.len(), entry)->0;
    assert(entry(k));
    assert(all[k].id@ == stage.public_process@);
}

/// The integration renders every engine, and the gateway exactly where the plan says
/// that it does.
pub proof fn law_integration_renders_the_engines(
    stage: PlannedServeStage,
    plan: PlanServeResult,
    placement: PlacementBinding,
    escapes: EffectiveEscapes,
    role_render_inputs: Dict<Vec<SuppliedRenderInput>>,
    gateway_inputs: Seq<SuppliedRenderInput>,
    pd_router_inputs: Seq<SuppliedRenderInput>,
    i: int,
)
    requires
        stage_is(
            stage,
            plan,
            placement,
            escapes,
            role_render_inputs,
            gateway_inputs,
            pd_router_inputs,
        ),
        0 <= i < stage.requirements@.len(),
    ensures
        ({
            let all = stage.requirements@;
            let rendered = stage.integration_rendered_process_ids@;
            let outside = plan.gateway matches Some(gateway) && gateway.render_source
                != RenderSource::Integration;
            &&& rendered.len() == all.len() - (if outside {
                1int
            } else {
                0int
            })
            &&& i < rendered.len() ==> rendered[i]@ == all[i].id@
        }),
{
    let all = stage.requirements@;
    let rendered = stage.integration_rendered_process_ids@;
    let n = process_offset(plan.replicas@, placement, plan.replicas@.len() as int);
    assert(texts(rendered).len() == rendered.len());
    if i < rendered.len() {
        assert(texts(rendered)[i] == rendered[i]@);
        if i < n {
            assert(process_ids(all, n as int)[i] == all[i].id@);
        }
    }
}

/// A gateway that is fused with a router has the ports of both, is linked as both and is
/// rendered with the inputs of both, its own first. Where a placement binds ranks, it is on
/// the machine and at the port of the first rank that is bound to the gateway.
pub proof fn law_fused_gateway_has_what_both_need(
    stage: PlannedServeStage,
    plan: PlanServeResult,
    placement: PlacementBinding,
    escapes: EffectiveEscapes,
    role_render_inputs: Dict<Vec<SuppliedRenderInput>>,
    gateway_inputs: Seq<SuppliedRenderInput>,
    pd_router_inputs: Seq<SuppliedRenderInput>,
    name: Seq<char>,
)
    requires
        stage_is(
            stage,
            plan,
            placement,
            escapes,
            role_render_inputs,
            gateway_inputs,
            pd_router_inputs,
        ),
        plan.gateway is Some,
    ensures
        ({
            let p = stage.requirements@.last();
            &&& plan.pd_router matches Some(router) ==> (lists(p.ports@, name) <==> lists(
                plan.gateway->0.ports@,
                name,
            ) || lists(router.ports@, name))
            &&& p.identity matches ProcessRequirementIdentity::Frontend { render_inputs, .. } && {
                &&& gateway_inputs.len() <= render_inputs@.len()
                &&& render_inputs@.take(gateway_inputs.len() as int) == gateway_inputs
                &&& plan.pd_router is None ==> render_inputs@ == gateway_inputs
                &&& plan.pd_router is Some ==> (supplied(render_inputs@, name) <==> supplied(
                    gateway_inputs,
                    name,
                ) || supplied(pd_router_inputs, name))
            }
            &&& p.fixed_devices is Some <==> explicit(placement)
            &&& p.fixed_devices matches Some(fixed) ==> (placement.roles.at(
                "gateway"@,
            ) matches Some(binding) && (binding.ranks_at(0) matches Some(ranks) && {
                &&& ranks@.len() > 0
                &&& fixed.machine == ranks@[0].machine
                &&& fixed.endpoint_port == ranks@[0].endpoint_port
            }))
        }),
{
    let n = process_offset(plan.replicas@, placement, plan.replicas@.len() as int);
    assert(stage.requirements@.last() == stage.requirements@[n as int]);
    if plan.pd_router is Some {
        law_merged_names_are_those_of_both(
            plan.gateway->0.ports@,
            plan.pd_router->0.ports@,
            name,
        );
    }
    law_merged_inputs_are_those_of_both(gateway_inputs, pd_router_inputs, name);
    assert(gateway_inputs.take(gateway_inputs.len() as int) =~= gateway_inputs);
}

/// Joining inputs keeps the first as they are and supplies every file of both and no other.
pub proof fn law_merged_inputs_are_those_of_both(
    base: Seq<SuppliedRenderInput>,
    more: Seq<SuppliedRenderInput>,
    path: Seq<char>,
)
    ensures
        base.len() <= merged_inputs(base, more).len(),
        merged_inputs(base, more).take(base.len() as int) == base,
        supplied(merged_inputs(base, more), path) <==> supplied(base, path) || supplied(more, path),
    decreases more.len(),
{
    let out = merged_inputs(base, more);
    if more.len() > 0 {
        let fewer = more.drop_last();
        let last = more.last();
        let before = merged_inputs(base, fewer);
        law_merged_inputs_are_those_of_both(base, fewer, path);
        law_merged_inputs_are_those_of_both(base, fewer, last.source_path@);
        assert(out.take(base.len() as int) =~= before.take(base.len() as int));
        if supplied(fewer, path) {
            let i = choose|i: int| 0 <= i < fewer.len() && (#[trigger] fewer[i]).source_path@ == path;
            assert(more[i].source_path@ == path);
        }
        if supplied(more, path) && !supplied(fewer, path) {
            let i = choose|i: int| 0 <= i < more.len() && (#[trigger] more[i]).source_path@ == path;
            if i < fewer.len() {
                assert(fewer[i].source_path@ == path);
            }
            assert(last.source_path@ == path);
        }
        if last.source_path@ == path {
            assert(more[more.len() - 1].source_path@ == path);
        }
        if out.len() > before.len() {
            assert(out[before.len() as int] == last);
            if supplied(before, path) {
                let i = choose|i: int|
                    0 <= i < before.len() && (#[trigger] before[i]).source_path@ == path;
                assert(out[i].source_path@ == path);
            }
            if supplied(out, path) && !supplied(before, path) {
                let i = choose|i: int|
                    0 <= i < out.len() && (#[trigger] out[i]).source_path@ == path;
                if i < before.len() {
                    assert(before[i].source_path@ == path);
                }
            }
        }
    } else {
        assert(base.take(base.len() as int) =~= base);
        assert(!supplied(more, path));
    }
}

} // verus!
