//! Rendering: an integration's commands, matched with the processes that were
//! planned, and the frontend that the control plane renders itself.

use crate::error::{answers, invalid_config, or_fault, refuses, InferlabError};
use crate::protocol::{
    FrontendComponents, FrontendProcessRole, IntegrationIdentity, KvTransferMechanism,
    PlanServeResult, RenderServeResult, RenderSource, RenderedServeProcess, ServeRoleResult,
};
use crate::resolve::allocation::ResolvedProcessAllocation;
use crate::resolve::integration::{builtin_fault, builtin_words, render_builtin_frontend};
use crate::resolve::planning::PlannedServeStage;
use crate::resolve::requirements::{named_before, ProcessRequirement};
use crate::resolve::topology::{find_role, role_index};
use crate::search::{first_some, lemma_first_some_none, lemma_first_some_stays};
use crate::text::{
    cat2, cat3, cat4, cat5, debug, debug_text, decimal, list_contains, lists, same, texts,
    to_decimal,
};
use vstd::prelude::*;
use vstd::string::*;

verus! {

/// The rendered processes, and for each required process the place of its own.
pub struct RenderedServeStage {
    pub processes: Vec<RenderedServeProcess>,
    pub order: Vec<usize>,
}

/// The id of a rendered process.
pub open spec fn rendered_id(process: RenderedServeProcess) -> Seq<char> {
    match process {
        RenderedServeProcess::ModelRank { process, .. } => process@,
        RenderedServeProcess::Frontend { process, .. } => process@,
    }
}

/// The id of a rendered process.
pub fn rendered_process_id(process: &RenderedServeProcess) -> (r: &str)
    ensures
        r@ == rendered_id(*process),
{
    match process {
        RenderedServeProcess::ModelRank { process, .. } => process.as_str(),
        RenderedServeProcess::Frontend { process, .. } => process.as_str(),
    }
}

/// The ids of rendered processes.
pub open spec fn rendered_ids(processes: Seq<RenderedServeProcess>) -> Seq<Seq<char>> {
    processes.map_values(|process: RenderedServeProcess| rendered_id(process))
}

/// The identities are the same.
pub open spec fn same_identity(a: IntegrationIdentity, b: IntegrationIdentity) -> bool {
    &&& a.adapter_id@ == b.adapter_id@
    &&& a.adapter_version@ == b.adapter_version@
    &&& a.framework@ == b.framework@
    &&& a.framework_version@ == b.framework_version@
}

/// The rendered process at a position is unknown or repeats an earlier one.
pub open spec fn rendered_fault(
    integration: Seq<char>,
    processes: Seq<RenderedServeProcess>,
    expected: Seq<String>,
) -> spec_fn(int) -> Option<Seq<char>> {
    |i: int|
        {
            let id = rendered_id(processes[i]);
            if !lists(expected, id) || rendered_ids(processes).take(i).contains(id) {
                Some(
                    "integration "@ + debug_text(integration)
                        + " returned duplicate or unknown process "@ + debug_text(id),
                )
            } else {
                None
            }
        }
}

/// The control plane renders the frontend.
pub open spec fn control_plane_frontend(plan: PlanServeResult) -> bool {
    plan.gateway matches Some(gateway) && gateway.render_source == RenderSource::ControlPlane
}

/// Whether the control plane renders the frontend.
pub fn renders_own_frontend(plan: &PlanServeResult) -> (r: bool)
    ensures
        r == control_plane_frontend(*plan),
{
    match &plan.gateway {
        Some(gateway) => gateway.render_source == RenderSource::ControlPlane,
        None => false,
    }
}

/// The process that must run where the control plane runs: the public one, where the
/// control plane renders it.
pub fn local_process<'s>(plan: &PlanServeResult, stage: &'s PlannedServeStage) -> (r: Option<
    &'s str,
>)
    ensures
        match r {
            Some(process) => control_plane_frontend(*plan) && process@ == stage.public_process@,
            None => !control_plane_frontend(*plan),
        },
{
    if renders_own_frontend(plan) {
        Some(stage.public_process.as_str())
    } else {
        None
    }
}

/// The data-parallel size of the attention layers of a role.
pub open spec fn data_parallel_size(roles: Seq<ServeRoleResult>, id: Seq<char>) -> u32 {
    match role_index(roles, id) {
        Some(i) => match roles[i].effective_parallelism.attention {
            Some(attention) => match attention.data_parallel_size {
                Some(size) => size,
                None => 1,
            },
            None => 1,
        },
        None => 1,
    }
}

fn find_data_parallel_size(roles: &[ServeRoleResult], id: &str) -> (r: u32)
    ensures
        r == data_parallel_size(roles@, id@),
{
    match find_role(roles, id) {
        Some(i) => match roles[i].effective_parallelism.attention {
            Some(attention) => match attention.data_parallel_size {
                Some(size) => size,
                None => 1,
            },
            None => 1,
        },
        None => 1,
    }
}

/// Why the integration's answer is refused.
pub open spec fn answer_fault(
    integration: Seq<char>,
    planned: IntegrationIdentity,
    rendered: RenderServeResult,
    expected: Seq<String>,
) -> Option<Seq<char>> {
    if !same_identity(rendered.integration, planned) {
        Some(
            "integration "@ + debug_text(integration)
                + " changed identity between serve planning and rendering"@,
        )
    } else if rendered.processes@.len() != expected.len() {
        Some(
            "integration "@ + debug_text(integration) + " rendered "@ + decimal(
                rendered.processes@.len(),
            ) + " processes for "@ + decimal(expected.len())
                + " integration-rendered allocations"@,
        )
    } else {
        first_some(
            rendered.processes@.len(),
            rendered_fault(integration, rendered.processes@, expected),
        )
    }
}

/// Why the frontend that the control plane renders is refused.
pub open spec fn own_frontend_fault(
    plan: PlanServeResult,
    rendered: RenderServeResult,
    transport: Option<KvTransferMechanism>,
    allocations: Seq<ResolvedProcessAllocation>,
) -> Option<Seq<char>> {
    if !control_plane_frontend(plan) {
        None
    } else {
        match plan.pd_router {
            None => Some("control-plane frontend requires a P/D Router plan"@),
            Some(pd_router) => or_fault(
                builtin_fault(
                    plan.gateway->0,
                    pd_router,
                    plan.integration.framework@,
                    transport,
                    allocations,
                ),
                if rendered_ids(rendered.processes@).contains("gateway"@) {
                    Some("frontend renderer duplicated process "@ + debug_text("gateway"@))
                } else {
                    None
                },
            ),
        }
    }
}

/// The ids of all rendered processes, the control plane's own last.
pub open spec fn all_rendered_ids(plan: PlanServeResult, rendered: RenderServeResult) -> Seq<
    Seq<char>,
> {
    if control_plane_frontend(plan) {
        rendered_ids(rendered.processes@).push("gateway"@)
    } else {
        rendered_ids(rendered.processes@)
    }
}

/// Why the required process at a position has no rendered one of its own.
pub open spec fn unrendered_fault(
    requirements: Seq<ProcessRequirement>,
    ids: Seq<Seq<char>>,
) -> spec_fn(int) -> Option<Seq<char>> {
    |i: int|
        {
            let id = requirements[i].id@;
            if !ids.contains(id) || named_before(requirements, i, id) {
                Some(
                    "resolved topology has no rendered process for allocation "@ + debug_text(id),
                )
            } else {
                None
            }
        }
}

/// A rendered process is required by none.
pub open spec fn surplus(requirements: Seq<ProcessRequirement>, ids: Seq<Seq<char>>) -> bool {
    exists|k: int|
        0 <= k < ids.len() && !named_before(
            requirements,
            requirements.len() as int,
            #[trigger] ids[k],
        )
}

/// Why rendered and required processes do not match.
pub open spec fn matching_fault(
    requirements: Seq<ProcessRequirement>,
    ids: Seq<Seq<char>>,
) -> Option<Seq<char>> {
    or_fault(
        first_some(requirements.len(), unrendered_fault(requirements, ids)),
        if surplus(requirements, ids) {
            Some("rendering returned processes outside the resolved topology"@)
        } else {
            None
        },
    )
}

/// Why rendering is refused.
pub open spec fn rendering_fault(
    integration: Seq<char>,
    plan: PlanServeResult,
    stage: PlannedServeStage,
    transport: Option<KvTransferMechanism>,
    allocations: Seq<ResolvedProcessAllocation>,
    rendered: RenderServeResult,
) -> Option<Seq<char>> {
    or_fault(
        answer_fault(
            integration,
            plan.integration,
            rendered,
            stage.integration_rendered_process_ids@,
        ),
        or_fault(
            own_frontend_fault(plan, rendered, transport, allocations),
            matching_fault(stage.requirements@, all_rendered_ids(plan, rendered)),
        ),
    )
}

/// The integration renders the process of the allocation.
pub open spec fn renders(stage: PlannedServeStage, allocation: ResolvedProcessAllocation) -> bool {
    lists(stage.integration_rendered_process_ids@, allocation.process@)
}

/// The places of the allocations that the integration is given to render, in
/// their order: those of the processes that it renders itself.
pub fn render_allocations(
    stage: &PlannedServeStage,
    allocations: &[ResolvedProcessAllocation],
) -> (r: Vec<usize>)
    ensures
        forall|i: int, j: int| 0 <= i < j < r@.len() ==> r@[i] < r@[j],
        forall|i: int|
            0 <= i < r@.len() ==> (#[trigger] r@[i]) < allocations@.len() && renders(
                *stage,
                allocations@[r@[i] as int],
            ),
        forall|k: usize|
            k < allocations@.len() && renders(*stage, #[trigger] allocations@[k as int])
                ==> r@.contains(k),
{
    let mut out: Vec<usize> = Vec::new();
    let mut at: usize = 0;
    while at < allocations.len()
        invariant
            at <= allocations@.len(),
            forall|i: int, j: int| 0 <= i < j < out@.len() ==> out@[i] < out@[j],
            forall|i: int|
                0 <= i < out@.len() ==> (#[trigger] out@[i]) < at && renders(
                    *stage,
                    allocations@[out@[i] as int],
                ),
            forall|k: usize|
                k < at && renders(*stage, #[trigger] allocations@[k as int]) ==> out@.contains(k),
        decreases allocations@.len() - at,
    {
        let ghost before = out@;
        if list_contains(
            stage.integration_rendered_process_ids.as_slice(),
            allocations[at].process.as_str(),
        ) {
            out.push(at);
            assert(out@[before.len() as int] == at);
            assert forall|k: usize|
                k <= at && renders(*stage, #[trigger] allocations@[k as int]) implies out@.contains(
                k,
            ) by {
                if k < at {
                    let i = choose|i: int| 0 <= i < before.len() && before[i] == k;
                    assert(out@[i] == k);
                }
            }
        }
        at += 1;
    }
    out
}

fn check_same_identity(a: &IntegrationIdentity, b: &IntegrationIdentity) -> (r: bool)
    ensures
        r == same_identity(*a, *b),
{
    same(a.adapter_id.as_str(), b.adapter_id.as_str()) && same(
        a.adapter_version.as_str(),
        b.adapter_version.as_str(),
    ) && same(a.framework.as_str(), b.framework.as_str()) && same(
        a.framework_version.as_str(),
        b.framework_version.as_str(),
    )
}

/// The first rendered process with the id, among the first ones.
fn find_rendered(processes: &[RenderedServeProcess], n: usize, id: &str) -> (r: Option<usize>)
    requires
        n <= processes@.len(),
    ensures
        match r {
            Some(i) => i < n && rendered_id(processes@[i as int]) == id@
                && rendered_ids(processes@).take(n as int).contains(id@),
            None => !rendered_ids(processes@).take(n as int).contains(id@),
        },
{
    let ghost ids = rendered_ids(processes@).take(n as int);
    let mut i: usize = 0;
    while i < n
        invariant
            i <= n <= processes@.len(),
            ids == rendered_ids(processes@).take(n as int),
            forall|j: int| 0 <= j < i ==> ids[j] != id@,
        decreases n - i,
    {
        assert(ids[i as int] == rendered_id(processes@[i as int]));
        if same(rendered_process_id(&processes[i]), id) {
            return Some(i);
        }
        i += 1;
    }
    None
}

fn check_answer(
    integration: &str,
    planned: &IntegrationIdentity,
    rendered: &RenderServeResult,
    expected: &[String],
) -> (r: Result<(), InferlabError>)
    ensures
        answers(r, answer_fault(integration@, *planned, *rendered, expected@)),
{
    if !check_same_identity(&rendered.integration, planned) {
        return invalid_config(
            cat3(
                "integration ",
                debug(integration).as_str(),
                " changed identity between serve planning and rendering",
            ),
        );
    }
    if rendered.processes.len() != expected.len() {
        return invalid_config(
            cat3(
                cat5(
                    "integration ",
                    debug(integration).as_str(),
                    " rendered ",
                    to_decimal(rendered.processes.len() as u64).as_str(),
                    " processes for ",
                ).as_str(),
                to_decimal(expected.len() as u64).as_str(),
                " integration-rendered allocations",
            ),
        );
    }
    let ghost f = rendered_fault(integration@, rendered.processes@, expected@);
    let mut i: usize = 0;
    while i < rendered.processes.len()
        invariant
            i <= rendered.processes@.len(),
            same_identity(rendered.integration, *planned),
            rendered.processes@.len() == expected@.len(),
            f == rendered_fault(integration@, rendered.processes@, expected@),
            first_some(i as nat, f) is None,
        decreases rendered.processes@.len() - i,
    {
        let id = rendered_process_id(&rendered.processes[i]);
        if !list_contains(expected, id) || find_rendered(
            rendered.processes.as_slice(),
            i,
            id,
        ).is_some() {
            proof {
                lemma_first_some_stays((i + 1) as nat, rendered.processes@.len(), f);
            }
            return invalid_config(
                cat4(
                    "integration ",
                    debug(integration).as_str(),
                    " returned duplicate or unknown process ",
                    debug(id).as_str(),
                ),
            );
        }
        i += 1;
    }
    Ok(())
}

fn check_required(requirements: &[ProcessRequirement], n: usize, id: &str) -> (r: bool)
    requires
        n <= requirements@.len(),
    ensures
        r == named_before(requirements@, n as int, id@),
{
    let mut i: usize = 0;
    while i < n
        invariant
            i <= n <= requirements@.len(),
            forall|j: int| 0 <= j < i ==> (#[trigger] requirements@[j]).id@ != id@,
        decreases n - i,
    {
        if same(requirements[i].id.as_str(), id) {
            assert(requirements@[i as int].id@ == id@);
            return true;
        }
        i += 1;
    }
    false
}

/// The order names for each required process the rendered one of the same id.
pub open spec fn ordered(
    requirements: Seq<ProcessRequirement>,
    processes: Seq<RenderedServeProcess>,
    order: Seq<usize>,
) -> bool {
    &&& order.len() == requirements.len()
    &&& forall|i: int|
        0 <= i < order.len() ==> (#[trigger] order[i]) < processes.len() && rendered_id(
            processes[order[i] as int],
        ) == requirements[i].id@
}

fn match_processes(requirements: &[ProcessRequirement], processes: &[RenderedServeProcess]) -> (r:
    Result<Vec<usize>, InferlabError>)
    ensures
        match matching_fault(requirements@, rendered_ids(processes@)) {
            Some(text) => refuses(r, text),
            None => r is Ok && ordered(requirements@, processes@, r->Ok_0@),
        },
{
    let ghost ids = rendered_ids(processes@);
    let ghost f = unrendered_fault(requirements@, ids);
    assert(ids.take(processes@.len() as int) =~= ids);
    let mut order: Vec<usize> = Vec::new();
    let mut i: usize = 0;
    while i < requirements.len()
        invariant
            i <= requirements@.len(),
            ids == rendered_ids(processes@),
            ids.take(processes@.len() as int) == ids,
            f == unrendered_fault(requirements@, ids),
            first_some(i as nat, f) is None,
            order@.len() == i,
            forall|j: int|
                0 <= j < i ==> (#[trigger] order@[j]) < processes@.len() && rendered_id(
                    processes@[order@[j] as int],
                ) == requirements@[j].id@,
        decreases requirements@.len() - i,
    {
        let id = requirements[i].id.as_str();
        let found = find_rendered(processes, processes.len(), id);
        let repeated = check_required(requirements, i, id);
        match found {
            Some(k) => {
                if repeated {
                    proof {
                        lemma_first_some_stays((i + 1) as nat, requirements@.len(), f);
                    }
                    return invalid_config(
                        cat2(
                            "resolved topology has no rendered process for allocation ",
                            debug(id).as_str(),
                        ),
                    );
                }
                order.push(k);
            },
            None => {
                proof {
                    lemma_first_some_stays((i + 1) as nat, requirements@.len(), f);
                }
                return invalid_config(
                    cat2(
                        "resolved topology has no rendered process for allocation ",
                        debug(id).as_str(),
                    ),
                );
            },
        }
        i += 1;
    }
    let mut k: usize = 0;
    while k < processes.len()
        invariant
            k <= processes@.len(),
            ids == rendered_ids(processes@),
            first_some(requirements@.len(), unrendered_fault(requirements@, ids)) is None,
            forall|j: int|
                0 <= j < k ==> named_before(
                    requirements@,
                    requirements@.len() as int,
                    #[trigger] ids[j],
                ),
        decreases processes@.len() - k,
    {
        assert(ids[k as int] == rendered_id(processes@[k as int]));
        if !check_required(requirements, requirements.len(), rendered_process_id(&processes[k])) {
            assert(surplus(requirements@, ids));
            return invalid_config(
                "rendering returned processes outside the resolved topology".to_owned(),
            );
        }
        k += 1;
    }
    assert(!surplus(requirements@, ids));
    Ok(order)
}

/// The process is the frontend that the control plane renders.
pub open spec fn own_frontend_is(
    process: RenderedServeProcess,
    executable: Seq<char>,
    plan: PlanServeResult,
    transport: Option<KvTransferMechanism>,
    allocations: Seq<ResolvedProcessAllocation>,
) -> bool {
    let pd_router = plan.pd_router->0;
    process matches RenderedServeProcess::Frontend {
        process: id,
        process_role,
        components,
        command,
        launch_files,
    } && {
        &&& id@ == "gateway"@
        &&& process_role == FrontendProcessRole::Gateway
        &&& components == FrontendComponents::GatewayPdRouter
        &&& texts(command.argv@) == builtin_words(
            executable,
            pd_router,
            plan.integration.framework@,
            transport,
            data_parallel_size(plan.roles@, pd_router.prefill_role@) as nat,
            allocations,
        )
        &&& command.env.entries@.len() == 0
        &&& launch_files@.len() == 0
    }
}

/// The commands of the planned processes: those that the integration rendered,
/// matched by their ids, and the frontend that the control plane renders itself.
pub fn render_integration(
    integration: &str,
    executable: &str,
    plan: &PlanServeResult,
    stage: &PlannedServeStage,
    transport: Option<KvTransferMechanism>,
    allocations: &[ResolvedProcessAllocation],
    rendered: RenderServeResult,
) -> (r: Result<RenderedServeStage, InferlabError>)
    ensures
        match rendering_fault(integration@, *plan, *stage, transport, allocations@, rendered) {
            Some(text) => refuses(r, text),
            None => {
                &&& r is Ok
                &&& ordered(stage.requirements@, r->Ok_0.processes@, r->Ok_0.order@)
                &&& if control_plane_frontend(*plan) {
                    &&& r->Ok_0.processes@.len() == rendered.processes@.len() + 1
                    &&& r->Ok_0.processes@.drop_last() == rendered.processes@
                    &&& own_frontend_is(
                        r->Ok_0.processes@.last(),
                        executable@,
                        *plan,
                        transport,
                        allocations@,
                    )
                } else {
                    r->Ok_0.processes@ == rendered.processes@
                }
            },
        },
{
    match check_answer(
        integration,
        &plan.integration,
        &rendered,
        stage.integration_rendered_process_ids.as_slice(),
    ) {
        Err(error) => {
            return Err(error);
        },
        Ok(()) => {},
    }
    let mut processes = rendered.processes;
    let ghost received = processes@;
    assert(rendered_ids(received).take(received.len() as int) =~= rendered_ids(received));
    if let Some(gateway) = &plan.gateway {
        if gateway.render_source == RenderSource::ControlPlane {
            let pd_router = match &plan.pd_router {
                None => {
                    return invalid_config(
                        "control-plane frontend requires a P/D Router plan".to_owned(),
                    );
                },
                Some(pd_router) => pd_router,
            };
            let size: u32 = find_data_parallel_size(
                plan.roles.as_slice(),
                pd_router.prefill_role.as_str(),
            );
            match render_builtin_frontend(
                executable,
                gateway,
                pd_router,
                plan.integration.framework.as_str(),
                transport,
                size,
                allocations,
            ) {
                Err(error) => {
                    return Err(error);
                },
                Ok(process) => {
                    if find_rendered(
                        processes.as_slice(),
                        processes.len(),
                        "gateway",
                    ).is_some() {
                        return invalid_config(
                            cat2(
                                "frontend renderer duplicated process ",
                                debug("gateway").as_str(),
                            ),
                        );
                    }
                    processes.push(process);
                    assert(rendered_ids(processes@) =~= rendered_ids(received).push("gateway"@));
                    assert(processes@.drop_last() =~= received);
                },
            }
        }
    }
    assert(rendered_ids(processes@) == all_rendered_ids(*plan, rendered));
    match match_processes(stage.requirements.as_slice(), processes.as_slice()) {
        Err(error) => Err(error),
        Ok(order) => Ok(RenderedServeStage { processes, order }),
    }
}

// ---------------------------------------------------------------------------
// Laws

/// Accepted renderings and required processes match one to one: each required process
/// has a rendered one with its id and no other process has that id, and each rendered
/// process is required.
pub proof fn law_every_process_is_rendered_once(
    requirements: Seq<ProcessRequirement>,
    ids: Seq<Seq<char>>,
    i: int,
    k: int,
)
    requires
        matching_fault(requirements, ids) is None,
        0 <= i < requirements.len(),
        0 <= k < ids.len(),
    ensures
        ids.contains(requirements[i].id@),
        forall|j: int| 0 <= j < i ==> (#[trigger] requirements[j]).id@ != requirements[i].id@,
        exists|j: int| 0 <= j < requirements.len() && (#[trigger] requirements[j]).id@ == ids[k],
{
    lemma_first_some_none(requirements.len(), unrendered_fault(requirements, ids));
    assert(unrendered_fault(requirements, ids)(i) is None);
    assert(named_before(requirements, requirements.len() as int, ids[k]));
}

/// An accepted answer of an integration is that of the integration that planned: it
/// renders as many processes as were asked of it, each of them asked for, none twice.
pub proof fn law_accepted_answer_renders_what_was_asked(
    integration: Seq<char>,
    planned: IntegrationIdentity,
    rendered: RenderServeResult,
    expected: Seq<String>,
    i: int,
    j: int,
)
    requires
        answer_fault(integration, planned, rendered, expected) is None,
        0 <= i < j < rendered.processes@.len(),
    ensures
        rendered.integration.adapter_id@ == planned.adapter_id@,
        rendered.integration.adapter_version@ == planned.adapter_version@,
        rendered.integration.framework@ == planned.framework@,
        rendered.integration.framework_version@ == planned.framework_version@,
        rendered.processes@.len() == expected.len(),
        lists(expected, rendered_id(rendered.processes@[i])),
        lists(expected, rendered_id(rendered.processes@[j])),
        rendered_id(rendered.processes@[i]) != rendered_id(rendered.processes@[j]),
{
    let f = rendered_fault(integration, rendered.processes@, expected);
    lemma_first_some_none(rendered.processes@.len(), f);
    assert(f(i) is None && f(j) is None);
    let ids = rendered_ids(rendered.processes@);
    assert(ids.take(j)[i] == rendered_id(rendered.processes@[i]));
}

/// A process is realized from what was rendered under its own id, wherever that stands
/// among the rendered ones.
pub proof fn law_process_is_paired_with_its_own_rendering(
    requirements: Seq<ProcessRequirement>,
    processes: Seq<RenderedServeProcess>,
    order: Seq<usize>,
    i: int,
)
    requires
        ordered(requirements, processes, order),
        0 <= i < requirements.len(),
    ensures
        order[i] < processes.len(),
        (match processes[order[i] as int] {
            RenderedServeProcess::ModelRank { process, .. } => process@,
            RenderedServeProcess::Frontend { process, .. } => process@,
        }) == requirements[i].id@,
{
}

/// The control plane renders the frontend of its own alone: without one, the processes
/// are those of the integration, and with one, its id comes behind them, once.
pub proof fn law_own_frontend_comes_last(
    integration: Seq<char>,
    plan: PlanServeResult,
    stage: PlannedServeStage,
    transport: Option<KvTransferMechanism>,
    allocations: Seq<ResolvedProcessAllocation>,
    rendered: RenderServeResult,
    i: int,
)
    requires
        rendering_fault(integration, plan, stage, transport, allocations, rendered) is None,
        0 <= i < rendered.processes@.len(),
    ensures
        ({
            let ids = all_rendered_ids(plan, rendered);
            let own = plan.gateway matches Some(gateway) && gateway.render_source
                == RenderSource::ControlPlane;
            &&& ids.len() == rendered.processes@.len() + (if own {
                1int
            } else {
                0int
            })
            &&& ids[i] == rendered_id(rendered.processes@[i])
            &&& own ==> ids.last() == "gateway"@ && rendered_id(rendered.processes@[i])
                != "gateway"@ && plan.pd_router is Some
        }),
{
    let ids = rendered_ids(rendered.processes@);
    assert(ids[i] == rendered_id(rendered.processes@[i]));
    if control_plane_frontend(plan) {
        assert(!ids.contains("gateway"@));
    }
}

/// The frontend that the control plane renders is the gateway, which is its router too, and
/// brings neither variables nor files.
pub proof fn law_own_frontend_is_gateway_and_router(
    process: RenderedServeProcess,
    executable: Seq<char>,
    plan: PlanServeResult,
    transport: Option<KvTransferMechanism>,
    allocations: Seq<ResolvedProcessAllocation>,
)
    requires
        own_frontend_is(process, executable, plan, transport, allocations),
    ensures
        process matches RenderedServeProcess::Frontend {
            process: id,
            process_role,
            components,
            command,
            launch_files,
        } && id@ == "gateway"@ && process_role is Gateway && components is GatewayPdRouter
            && command.env.entries@.len() == 0 && launch_files@.len() == 0,
{
}

} // verus!
