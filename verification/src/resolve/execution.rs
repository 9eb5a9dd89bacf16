//! The execution that a workflow resolves to: what the integration rendered is
//! realized, measured and put in its place among the roles.

use crate::dict::{lemma_with_entry_lookup, names_are, Dict};
use crate::error::{invalid_config, refuses, InferlabError};
use crate::protocol::{
    EndpointRequirement, KvTransferMechanism, PlanServeResult, RenderServeResult,
    RenderedServeProcess, ServeRoleInput, ServeRoleResult,
};
use crate::resolve::allocation::ResolvedProcessAllocation;
use crate::resolve::composition::{
    compose_measurements, measured_locator, stack_realization, CheckRealization,
};
use crate::resolve::hierarchy::{
    assemble_process_hierarchy, frontend_plan_is, hierarchy_fault, role_plan_is, FrontendPlan,
    RolePlan,
};
use crate::resolve::planning::PlannedServeStage;
use crate::resolve::realization::{
    command_of, devices_needed, last_named, machine_used, public_endpoint_is, realization_fault,
    realize_runtime, rendered_at, EndpointPlan, ProcessPlan, RealizationContext,
    RuntimeRealization,
};
use crate::resolve::rendering::{
    control_plane_frontend, ordered, own_frontend_is, render_integration, rendering_fault,
    RenderedServeStage,
};
use crate::resolve::requirements::ProcessRequirement;
use crate::resolve::workflow::Workflow;
use crate::search::{first_some, lemma_first_some_stays};
use crate::text::{cat3, debug, debug_text, text_of};
use crate::workspace::ModelWeightBinding;
use vstd::prelude::*;

verus! {

/// What a workflow asks of an execution beside its server.
pub struct ExecutionRequest<'r> {
    pub workflow: Workflow,
    pub has_suite: bool,
    pub server_id: &'r str,
    pub weight: &'r ModelWeightBinding,
    pub image: bool,
    pub external: bool,
    /// The control plane's own executable.
    pub executable: &'r str,
    pub transport: Option<KvTransferMechanism>,
}

/// A resolved execution.
pub struct ResolvedExecution<'a> {
    pub workflow: Workflow,
    pub realization: CheckRealization,
    pub processes: Vec<ProcessPlan<'a>>,
    pub endpoint: EndpointPlan<'a>,
    pub device_count: u32,
    /// The machines in use, in the order of their names.
    pub machines: Vec<String>,
    pub roles: Vec<RolePlan<'a>>,
    pub frontend: Option<FrontendPlan<'a>>,
    /// The model that measurements address.
    pub model_locator: Option<String>,
}

/// Whether the processes are those that the integration rendered, with the
/// frontend that the control plane renders itself behind them, each found under
/// the id of its requirement.
pub open spec fn rendered_as(
    out: RenderedServeStage,
    executable: Seq<char>,
    plan: PlanServeResult,
    requirements: Seq<ProcessRequirement>,
    transport: Option<KvTransferMechanism>,
    allocations: Seq<ResolvedProcessAllocation>,
    rendered: Seq<RenderedServeProcess>,
) -> bool {
    &&& ordered(requirements, out.processes@, out.order@)
    &&& if control_plane_frontend(plan) {
        &&& out.processes@.len() == rendered.len() + 1
        &&& out.processes@.drop_last() == rendered
        &&& own_frontend_is(out.processes@.last(), executable, plan, transport, allocations)
    } else {
        out.processes@ == rendered
    }
}

/// Whether measurements can address a model where the workflow measures.
pub open spec fn measurement_fault(
    request: ExecutionRequest,
    allocations: Seq<ResolvedProcessAllocation>,
) -> Option<Seq<char>> {
    match request.workflow {
        Workflow::ServeStart => None,
        Workflow::RecipeRun => if !request.has_suite {
            Some("recipe workflow has no workload suite"@)
        } else if measured_locator(*request.weight, allocations) is None {
            Some(
                "recipe target server "@ + debug_text(request.server_id@)
                    + " has no model locator usable by its measurements"@,
            )
        } else {
            None
        },
    }
}

/// Whether a realization is what comes of the rendered processes, one process for
/// each requirement; `public` is the requirement of the public endpoint.
pub open spec fn realization_is(
    realization: RuntimeRealization,
    ctx: RealizationContext,
    requirements: Seq<ProcessRequirement>,
    allocations: Seq<ResolvedProcessAllocation>,
    out: RenderedServeStage,
    endpoint: EndpointRequirement,
    public: int,
) -> bool {
    &&& realization.processes@.len() == requirements.len()
    &&& forall|i: int|
        0 <= i < requirements.len() ==> ctx.plan_is(
            #[trigger] realization.processes@[i],
            requirements[i],
            allocations[i],
            rendered_at(out.processes@, out.order@, i),
            allocations,
        )
    &&& public_endpoint_is(realization.public_endpoint, endpoint, allocations[public])
    &&& realization.device_count == devices_needed(requirements)
    &&& names_are(
        realization.selected_machines@,
        |name: Seq<char>| machine_used(allocations, name),
    )
}

/// What follows the rendering: the first process that cannot be realized refuses,
/// then the lack of a public endpoint.
pub open spec fn realized_from(
    r: Result<RuntimeRealization, InferlabError>,
    ctx: RealizationContext,
    requirements: Seq<ProcessRequirement>,
    allocations: Seq<ResolvedProcessAllocation>,
    out: RenderedServeStage,
    endpoint: EndpointRequirement,
) -> bool {
    match first_some(
        requirements.len(),
        realization_fault(ctx, requirements, allocations, out.processes@, out.order@, endpoint),
    ) {
        Some(text) => refuses(r, text),
        None => match last_named(requirements, ctx.public_process@) {
            None => refuses(
                r,
                "integration "@ + debug_text(ctx.integration@)
                    + " did not plan a public endpoint"@,
            ),
            Some(public) => r matches Ok(realization) && realization_is(
                realization,
                ctx,
                requirements,
                allocations,
                out,
                endpoint,
                public,
            ),
        },
    }
}

/// The realization of a planned and allocated server: the integration's answer is
/// matched with the plan, and the processes are realized. The first fault refuses.
pub fn realize<'a>(
    request: &ExecutionRequest,
    ctx: &RealizationContext,
    plan: &PlanServeResult,
    stage: &PlannedServeStage<'a>,
    allocations: &'a [ResolvedProcessAllocation],
    rendered: RenderServeResult,
    endpoint: &'a EndpointRequirement,
) -> (r: Result<RuntimeRealization<'a, 'a>, InferlabError>)
    requires
        ctx.current_env.wf(),
        stage.requirements@.len() == allocations@.len(),
        forall|i: int|
            0 <= i < rendered.processes@.len() ==> command_of(
                #[trigger] rendered.processes@[i],
            ).env.wf(),
        devices_needed(stage.requirements@) <= u32::MAX,
    ensures
        match rendering_fault(
            ctx.integration@,
            *plan,
            *stage,
            request.transport,
            allocations@,
            rendered,
        ) {
            Some(text) => refuses(r, text),
            None => exists|out: RenderedServeStage|
                {
                    &&& #[trigger] rendered_as(
                        out,
                        request.executable@,
                        *plan,
                        stage.requirements@,
                        request.transport,
                        allocations@,
                        rendered.processes@,
                    )
                    &&& realized_from(
                        r,
                        *ctx,
                        stage.requirements@,
                        allocations@,
                        out,
                        *endpoint,
                    )
                },
        },
{
    let ghost answered = rendered.processes@;
    let out = match render_integration(
        ctx.integration,
        request.executable,
        plan,
        stage,
        request.transport,
        allocations,
        rendered,
    ) {
        Err(error) => {
            return Err(error);
        },
        Ok(out) => out,
    };
    assert(rendered_as(
        out,
        request.executable@,
        *plan,
        stage.requirements@,
        request.transport,
        allocations@,
        answered,
    ));
    assert forall|i: int| 0 <= i < out.processes@.len() implies command_of(
        #[trigger] out.processes@[i],
    ).env.wf() by {
        if i < answered.len() {
            if control_plane_frontend(*plan) {
                assert(out.processes@.drop_last()[i] == out.processes@[i]);
            }
            assert(out.processes@[i] == answered[i]);
        }
    }
    let r = realize_runtime(
        ctx,
        stage.requirements.as_slice(),
        allocations,
        out.processes.as_slice(),
        out.order.as_slice(),
        endpoint,
    );
    assert(realized_from(r, *ctx, stage.requirements@, allocations@, out, *endpoint));
    r
}

/// Whether an execution is that of a realization: its processes as they are, each in
/// its place among the roles, and the model that measurements address.
pub open spec fn execution_is(
    execution: ResolvedExecution,
    request: ExecutionRequest,
    inputs: Seq<ServeRoleInput>,
    plan: PlanServeResult,
    requirements: Seq<ProcessRequirement>,
    allocations: Seq<ResolvedProcessAllocation>,
    realization: RuntimeRealization,
) -> bool {
    &&& execution.workflow == request.workflow
    &&& execution.realization == if request.image {
        CheckRealization::Image
    } else if request.external {
        CheckRealization::ExternalImage
    } else {
        CheckRealization::LocalWorkspace
    }
    &&& execution.processes == realization.processes
    &&& execution.endpoint == realization.public_endpoint
    &&& execution.device_count == realization.device_count
    &&& execution.machines == realization.selected_machines
    &&& execution.roles@.len() == plan.roles@.len()
    &&& forall|i: int|
        0 <= i < plan.roles@.len() ==> role_plan_is(
            #[trigger] execution.roles@[i],
            inputs,
            plan,
            requirements,
            execution.processes@,
            i,
        )
    &&& frontend_plan_is(execution.frontend, plan, requirements, execution.processes@)
    &&& match request.workflow {
        Workflow::ServeStart => execution.model_locator is None,
        Workflow::RecipeRun => execution.model_locator matches Some(found) && Some(found@)
            == measured_locator(*request.weight, allocations),
    }
}

/// The execution of a realized server: the model that measurements address is found,
/// and every process is placed among the roles. The first fault refuses. The
/// processes are those of the realization as the network between the machines and
/// their own workspaces left them.
pub fn resolve<'a>(
    request: &ExecutionRequest,
    integration: &str,
    inputs: &'a [ServeRoleInput],
    plan: &'a PlanServeResult,
    requirements: &[ProcessRequirement],
    allocations: &[ResolvedProcessAllocation],
    realization: RuntimeRealization<'a, 'a>,
) -> (r: Result<ResolvedExecution<'a>, InferlabError>)
    ensures
        match measurement_fault(*request, allocations@) {
            Some(text) => refuses(r, text),
            None => match hierarchy_fault(
                integration@,
                inputs@,
                *plan,
                requirements@,
                realization.processes@,
            ) {
                Some(text) => refuses(r, text),
                None => r matches Ok(execution) && execution_is(
                    execution,
                    *request,
                    inputs@,
                    *plan,
                    requirements@,
                    allocations@,
                    realization,
                ),
            },
        },
{
    let model_locator = match compose_measurements(
        request.workflow,
        request.has_suite,
        request.server_id,
        request.weight,
        allocations,
    ) {
        Err(error) => {
            return Err(error);
        },
        Ok(model_locator) => model_locator,
    };
    let (roles, frontend) = match assemble_process_hierarchy(
        integration,
        inputs,
        plan,
        requirements,
        realization.processes.as_slice(),
    ) {
        Err(error) => {
            return Err(error);
        },
        Ok(found) => found,
    };
    Ok(
        ResolvedExecution {
            workflow: request.workflow,
            realization: stack_realization(request.image, request.external),
            processes: realization.processes,
            endpoint: realization.public_endpoint,
            device_count: realization.device_count,
            machines: realization.selected_machines,
            roles,
            frontend,
            model_locator,
        },
    )
}

// ---------------------------------------------------------------------------
// The environment of the control plane

/// One variable of the process environment: its name and value where they are
/// text.
pub struct EnvironmentVariable {
    pub name: Option<String>,
    pub value: Option<String>,
}

/// Why a variable cannot be taken over.
pub open spec fn variable_fault(variables: Seq<EnvironmentVariable>) -> spec_fn(int) -> Option<
    Seq<char>,
> {
    |i: int|
        match variables[i].name {
            None => Some("process environment contains a non-UTF-8 variable name"@),
            Some(name) => match variables[i].value {
                None => Some(
                    "process environment variable "@ + debug_text(name@) + " is not valid UTF-8"@,
                ),
                Some(_) => None,
            },
        }
}

/// The value of the last variable with the name.
pub open spec fn variable(variables: Seq<EnvironmentVariable>, name: Seq<char>) -> Option<Seq<char>>
    decreases variables.len(),
{
    if variables.len() == 0 {
        None
    } else if variables.last().name is Some && variables.last().name->0@ == name {
        Some(variables.last().value->0@)
    } else {
        variable(variables.drop_last(), name)
    }
}

/// The environment of the control plane as text: refused at the first variable
/// whose name or value is not text; of a repeated name the last value counts.
pub fn current_environment(variables: &[EnvironmentVariable]) -> (r: Result<
    Dict<String>,
    InferlabError,
>)
    ensures
        match first_some(variables@.len(), variable_fault(variables@)) {
            Some(text) => refuses(r, text),
            None => {
                &&& r is Ok
                &&& r->Ok_0.wf()
                &&& forall|name: Seq<char>|
                    text_of(#[trigger] r->Ok_0.at(name)) == variable(variables@, name)
            },
        },
{
    let ghost f = variable_fault(variables@);
    let mut out: Dict<String> = Dict::new();
    let mut i: usize = 0;
    while i < variables.len()
        invariant
            i <= variables@.len(),
            f == variable_fault(variables@),
            first_some(i as nat, f) is None,
            out.wf(),
            forall|name: Seq<char>|
                text_of(#[trigger] out.at(name)) == variable(variables@.take(i as int), name),
        decreases variables@.len() - i,
    {
        let ghost before = out;
        match (&variables[i].name, &variables[i].value) {
            (None, _) => {
                proof {
                    lemma_first_some_stays((i + 1) as nat, variables@.len(), f);
                }
                return invalid_config(
                    "process environment contains a non-UTF-8 variable name".to_owned(),
                );
            },
            (Some(name), None) => {
                proof {
                    lemma_first_some_stays((i + 1) as nat, variables@.len(), f);
                }
                return invalid_config(
                    cat3(
                        "process environment variable ",
                        debug(name.as_str()).as_str(),
                        " is not valid UTF-8",
                    ),
                );
            },
            (Some(name), Some(value)) => {
                let key = name.clone();
                let text = value.clone();
                out.insert(key, text);
                proof {
                    let taken = variables@.take(i + 1);
                    assert(taken.drop_last() =~= variables@.take(i as int));
                    assert forall|other: Seq<char>| text_of(#[trigger] out.at(other))
                        == variable(taken, other) by {
                        lemma_with_entry_lookup(before.entries@, key, text, other);
                        assert(text_of(before.at(other)) == variable(
                            variables@.take(i as int),
                            other,
                        ));
                    }
                }
            },
        }
        i += 1;
    }
    assert(variables@.take(i as int) =~= variables@);
    Ok(out)
}

// ---------------------------------------------------------------------------
// What conditioning needs of the serving roles

/// For each role, whether it has a public endpoint of its own, and the size of
/// its data-parallel attention, one where none is set.
pub open spec fn serving_shape(role: ServeRoleResult) -> (bool, u32) {
    (
        role.public_endpoint is Some,
        match role.effective_parallelism.attention {
            Some(attention) => match attention.data_parallel_size {
                Some(size) => size,
                None => 1u32,
            },
            None => 1u32,
        },
    )
}

/// The serving shapes of the planned roles, in their order.
pub fn serving_shapes(plan: &PlanServeResult) -> (r: Vec<(bool, u32)>)
    ensures
        r@ == plan.roles@.map_values(|role: ServeRoleResult| serving_shape(role)),
{
    let mut out: Vec<(bool, u32)> = Vec::new();
    let mut i: usize = 0;
    while i < plan.roles.len()
        invariant
            i <= plan.roles@.len(),
            out@.len() == i,
            forall|j: int| 0 <= j < i ==> (#[trigger] out@[j]) == serving_shape(plan.roles@[j]),
        decreases plan.roles@.len() - i,
    {
        let role = &plan.roles[i];
        let size: u32 = match &role.effective_parallelism.attention {
            Some(attention) => match attention.data_parallel_size {
                Some(size) => size,
                None => 1,
            },
            None => 1,
        };
        out.push((role.public_endpoint.is_some(), size));
        i += 1;
    }
    out
}

/// The last of several variables of one name counts, whatever stands before it; one of
/// another name changes nothing.
pub proof fn law_last_variable_counts(
    variables: Seq<EnvironmentVariable>,
    last: EnvironmentVariable,
    name: Seq<char>,
)
    requires
        last.name is Some && last.value is Some,
    ensures
        last.name->0@ == name ==> variable(variables.push(last), name) == Some(last.value->0@),
        last.name->0@ != name ==> variable(variables.push(last), name) == variable(variables, name),
{
    assert(variables.push(last).drop_last() =~= variables);
}

/// A variable is taken over exactly where both its name and its value can be read.
pub proof fn law_readable_variables_are_taken_over(variables: Seq<EnvironmentVariable>, i: int)
    ensures
        variable_fault(variables)(i) is None <==> variables[i].name is Some && variables[i].value
            is Some,
{
}

/// An execution is the one that was asked for: it runs what was realized, in the image where
/// one was asked for, in the external image where that was, and else in the workspace; only
/// a recipe addresses a model.
pub proof fn law_execution_is_the_one_asked_for(
    execution: ResolvedExecution,
    request: ExecutionRequest,
    inputs: Seq<ServeRoleInput>,
    plan: PlanServeResult,
    requirements: Seq<ProcessRequirement>,
    allocations: Seq<ResolvedProcessAllocation>,
    realization: RuntimeRealization,
)
    requires
        execution_is(execution, request, inputs, plan, requirements, allocations, realization),
    ensures
        execution.workflow == request.workflow,
        request.image ==> execution.realization is Image,
        !request.image && request.external ==> execution.realization is ExternalImage,
        !request.image && !request.external ==> execution.realization is LocalWorkspace,
        execution.processes == realization.processes,
        execution.endpoint == realization.public_endpoint,
        execution.device_count == realization.device_count,
        execution.machines == realization.selected_machines,
        execution.roles@.len() == plan.roles@.len(),
        execution.model_locator is Some <==> request.workflow is RecipeRun,
{
}

/// A recipe is measured only where it has workloads and its measurements can address a
/// model; a server alone needs neither.
pub proof fn law_only_recipes_need_a_model_to_measure(
    request: ExecutionRequest,
    allocations: Seq<ResolvedProcessAllocation>,
)
    ensures
        measurement_fault(request, allocations) is None <==> (request.workflow is ServeStart || (
        request.has_suite && measured_locator(*request.weight, allocations) is Some)),
{
}

/// A realization holds one process for each requirement, in their order, and every machine
/// that an allocation uses, and no other.
pub proof fn law_realization_has_a_process_for_each_requirement(
    realization: RuntimeRealization,
    ctx: RealizationContext,
    requirements: Seq<ProcessRequirement>,
    allocations: Seq<ResolvedProcessAllocation>,
    out: RenderedServeStage,
    endpoint: EndpointRequirement,
    public: int,
    name: Seq<char>,
)
    requires
        realization_is(
            realization,
            ctx,
            requirements,
            allocations,
            out,
            endpoint,
            public,
        ),
    ensures
        realization.processes@.len() == requirements.len(),
        crate::text::lists(realization.selected_machines@, name) <==> exists|i: int|
            0 <= i < allocations.len() && (#[trigger] allocations[i]).machine@ == name,
{
}

/// The shape of a role tells whether it is public, and the size of its data-parallel
/// attention, which is one where none was set.
pub proof fn law_shape_tells_the_role(role: ServeRoleResult)
    ensures
        serving_shape(role).0 <==> role.public_endpoint is Some,
        role.effective_parallelism.attention matches Some(attention) && attention.data_parallel_size
            is Some ==> Some(serving_shape(role).1)
            == role.effective_parallelism.attention->0.data_parallel_size,
        role.effective_parallelism.attention is None ==> serving_shape(role).1 == 1,
        role.effective_parallelism.attention is Some
            && role.effective_parallelism.attention->0.data_parallel_size is None ==> serving_shape(
            role,
        ).1 == 1,
{
}

} // verus!
