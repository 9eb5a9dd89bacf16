//! Realization: the commands, environments, files and endpoints of the
//! processes as they are launched.

use crate::dict::{names_are, Dict, Names};
use crate::error::{answers, invalid_config, or_fault, refuses, InferlabError};
use crate::paths::{join_path, joined_path};
use crate::protocol::{
    CaptureMechanism, CaptureWindowControlEndpoint, CaptureWindowHttpActionSpec, EndpointAssignment,
    EndpointRequirement, FrontendComponents, FrontendProcessRole, HttpMethod, LaunchFileDeclaration,
    ProcessSpec, RenderSource, RenderedServeProcess, ServerMetricsEndpointRequirement,
};
use crate::resolve::allocation::{
    launch_plan, pixi_command, pixi_words, readiness_fault, readiness_is, readiness_plan,
    AllocationIdentity, LaunchPlan, ReadinessPlan, ResolvedProcessAllocation,
};
use crate::resolve::integration::{
    allocation_index, find_allocation, launch_file_fault, launch_file_is,
    validate_launch_file_declarations, LaunchFilePlan,
};
use crate::resolve::rendering::{rendered_id, rendered_process_id};
use crate::resolve::requirements::{
    PendingCaptureTargetPlan, ProcessRequirement, ProcessRequirementIdentity,
};
use crate::resolve::topology::{endpoint_url, endpoint_url_text};
use crate::search::{first_some, lemma_first_some_stays};
use crate::text::{
    all_digits, cat2, cat3, cat4, cat5, copy_list, debug, debug_text, decimal, decimal_value, digit,
    join, joined, law_decimal_reads_back, law_split_undoes_join, lists, optional_text, same,
    split_on, texts, to_decimal,
};
use crate::workspace::{LaunchBinding, MachineBinding, NsysEscapes};
use vstd::prelude::*;
use vstd::string::*;

verus! {

// ---------------------------------------------------------------------------
// Data

/// A command with its environment.
#[derive(Debug)]
pub struct CommandPlan {
    pub argv: Vec<String>,
    pub env: Dict<String>,
    /// The variables that were set on purpose, in their order.
    pub explicit_env: Vec<String>,
    pub pass_env: Vec<String>,
    pub cwd: String,
}

/// Who rendered a command.
#[derive(Clone, Copy, Debug, PartialEq, Eq, Structural)]
pub enum ProcessCommandSource {
    Integration,
    ControlPlane,
}

/// What a process is for.
#[derive(Clone, Copy, Debug, PartialEq, Eq, Structural)]
pub enum ProcessIdentityPlan {
    ModelRank { rank: u32, rank_count: u32 },
    Frontend { process_role: FrontendProcessRole, components: FrontendComponents },
}

/// An action that opens or closes capture windows, with its URL.
#[derive(Debug)]
pub struct CaptureWindowActionPlan {
    pub method: HttpMethod,
    pub path: String,
    pub body: Option<String>,
    pub effective_url: String,
}

/// How a process is captured.
#[derive(Debug)]
pub struct ProcessCapturePlan<'a> {
    pub mechanism: CaptureMechanism,
    pub window_control_endpoint: CaptureWindowControlEndpoint,
    pub control_process_id: String,
    pub start: CaptureWindowActionPlan,
    pub stop: CaptureWindowActionPlan,
    pub escapes: &'a NsysEscapes,
}

/// A process as it is launched.
#[derive(Debug)]
pub struct ProcessPlan<'a> {
    pub id: String,
    pub identity: ProcessIdentityPlan,
    pub command_source: ProcessCommandSource,
    pub machine: String,
    pub launch: LaunchPlan,
    pub launch_dependencies: Vec<String>,
    pub allocation: &'a ResolvedProcessAllocation,
    pub communication_interface: Option<String>,
    pub command: CommandPlan,
    pub launch_files: Vec<LaunchFilePlan>,
    pub readiness: ReadinessPlan,
    pub endpoint: EndpointAssignment,
    pub capture_target: Option<ProcessCapturePlan<'a>>,
}

/// The metrics of a public endpoint, with their URL.
#[derive(Debug)]
pub struct ServerMetricsEndpointPlan {
    pub path: String,
    pub port_name: Option<String>,
    pub url: String,
}

/// The endpoint that clients use.
#[derive(Debug)]
pub struct EndpointPlan<'p> {
    pub host: String,
    pub port: u16,
    pub requirement: &'p EndpointRequirement,
    pub server_metrics: Option<ServerMetricsEndpointPlan>,
}

/// What processes are realized from.
pub struct RealizationContext<'c> {
    pub integration: &'c str,
    pub pixi_environment: &'c str,
    pub workspace_root: &'c str,
    pub machines: &'c Dict<MachineBinding>,
    /// The environment of the control plane.
    pub current_env: &'c Dict<String>,
    pub readiness_timeout_seconds: u64,
    pub readiness_attempt_timeout_seconds: u64,
    pub capture_armed: bool,
    pub public_process: &'c str,
    pub gateway_process_id: Option<&'c str>,
}

// ---------------------------------------------------------------------------
// Captures

/// The process that controls the capture windows, where it is known.
pub open spec fn control_process(target: PendingCaptureTargetPlan, gateway: Option<Seq<char>>) -> Option<
    Seq<char>,
> {
    match target.window_control_endpoint {
        CaptureWindowControlEndpoint::ReplicaEntry => Some(target.replica_entry_process_id@),
        CaptureWindowControlEndpoint::Gateway => gateway,
    }
}

/// The endpoint of the process with the id.
pub open spec fn endpoint_of(allocations: Seq<ResolvedProcessAllocation>, id: Seq<char>) -> Option<
    EndpointAssignment,
> {
    match allocation_index(allocations, id) {
        Some(i) => allocations[i].endpoint,
        None => None,
    }
}

/// Why a capture target cannot be resolved.
pub open spec fn capture_target_fault(
    target: Option<PendingCaptureTargetPlan>,
    gateway: Option<Seq<char>>,
    allocations: Seq<ResolvedProcessAllocation>,
) -> Option<Seq<char>> {
    match target {
        None => None,
        Some(target) => match control_process(target, gateway) {
            None => Some("Gateway profiling window control has no resolved Gateway process"@),
            Some(id) => if endpoint_of(allocations, id) is None {
                Some(
                    "profiling window-control process "@ + debug_text(id)
                        + " has no resolved endpoint"@,
                )
            } else {
                None
            },
        },
    }
}

/// The action is sent to the endpoint.
pub open spec fn window_action_is(
    plan: CaptureWindowActionPlan,
    action: CaptureWindowHttpActionSpec,
    endpoint: EndpointAssignment,
) -> bool {
    &&& plan.method == action.method
    &&& plan.path == action.path
    &&& plan.body == action.body
    &&& plan.effective_url@ == endpoint_url_text(endpoint) + action.path@
}

/// The capture is that of the target, under the control of its process.
pub open spec fn capture_plan_is(
    plan: Option<ProcessCapturePlan>,
    target: Option<PendingCaptureTargetPlan>,
    gateway: Option<Seq<char>>,
    allocations: Seq<ResolvedProcessAllocation>,
) -> bool {
    match (target, plan) {
        (None, None) => true,
        (Some(target), Some(plan)) => {
            let endpoint = endpoint_of(allocations, control_process(target, gateway)->0)->0;
            &&& plan.mechanism == target.mechanism
            &&& plan.window_control_endpoint == target.window_control_endpoint
            &&& Some(plan.control_process_id@) == control_process(target, gateway)
            &&& window_action_is(plan.start, *target.start, endpoint)
            &&& window_action_is(plan.stop, *target.stop, endpoint)
            &&& *plan.escapes == *target.escapes
        },
        _ => false,
    }
}

/// The action, sent to the endpoint.
pub fn resolve_capture_window_action(
    action: &CaptureWindowHttpActionSpec,
    endpoint: &EndpointAssignment,
) -> (r: CaptureWindowActionPlan)
    ensures
        window_action_is(r, *action, *endpoint),
{
    CaptureWindowActionPlan {
        method: action.method,
        path: action.path.clone(),
        body: match &action.body {
            Some(body) => Some(body.clone()),
            None => None,
        },
        effective_url: cat2(endpoint_url(endpoint).as_str(), action.path.as_str()),
    }
}

/// How a process is captured, where it is a capture target.
pub fn resolve_capture_target<'a>(
    target: &Option<PendingCaptureTargetPlan<'a>>,
    gateway_process_id: Option<&str>,
    allocations: &[ResolvedProcessAllocation],
) -> (r: Result<Option<ProcessCapturePlan<'a>>, InferlabError>)
    ensures
        match capture_target_fault(*target, optional_text(gateway_process_id), allocations@) {
            Some(text) => refuses(r, text),
            None => r is Ok && capture_plan_is(
                r->Ok_0,
                *target,
                optional_text(gateway_process_id),
                allocations@,
            ),
        },
{
    let target = match target {
        None => {
            return Ok(None);
        },
        Some(target) => target,
    };
    let control = match target.window_control_endpoint {
        CaptureWindowControlEndpoint::ReplicaEntry => target.replica_entry_process_id.as_str(),
        CaptureWindowControlEndpoint::Gateway => match gateway_process_id {
            None => {
                return invalid_config(
                    "Gateway profiling window control has no resolved Gateway process".to_owned(),
                );
            },
            Some(id) => id,
        },
    };
    let endpoint = match find_allocation(allocations, control) {
        Some(i) => match &allocations[i].endpoint {
            Some(endpoint) => Some(endpoint),
            None => None,
        },
        None => None,
    };
    match endpoint {
        None => invalid_config(
            cat3(
                "profiling window-control process ",
                debug(control).as_str(),
                " has no resolved endpoint",
            ),
        ),
        Some(endpoint) => Ok(
            Some(
                ProcessCapturePlan {
                    mechanism: target.mechanism,
                    window_control_endpoint: target.window_control_endpoint,
                    control_process_id: control.to_owned(),
                    start: resolve_capture_window_action(target.start, endpoint),
                    stop: resolve_capture_window_action(target.stop, endpoint),
                    escapes: target.escapes,
                },
            ),
        ),
    }
}

// ---------------------------------------------------------------------------
// Identity

/// The command of a rendered process.
pub open spec fn command_of(rendered: RenderedServeProcess) -> ProcessSpec {
    match rendered {
        RenderedServeProcess::ModelRank { command, .. } => command,
        RenderedServeProcess::Frontend { command, .. } => command,
    }
}

/// The launch files of a rendered process.
pub open spec fn launch_files_of(rendered: RenderedServeProcess) -> Seq<LaunchFileDeclaration> {
    match rendered {
        RenderedServeProcess::ModelRank { launch_files, .. } => launch_files@,
        RenderedServeProcess::Frontend { launch_files, .. } => launch_files@,
    }
}

/// Required, allocated and rendered process are one and the same.
pub open spec fn one_process(
    requirement: ProcessRequirement,
    allocation: ResolvedProcessAllocation,
    rendered: RenderedServeProcess,
) -> bool {
    &&& allocation.process@ == requirement.id@
    &&& rendered_id(rendered) == requirement.id@
    &&& match (requirement.identity, allocation.identity, rendered) {
        (
            ProcessRequirementIdentity::ModelRank { replica, rank, .. },
            AllocationIdentity::ModelRank {
                role,
                replica: allocated_replica,
                rank: allocated_rank,
                rank_count,
                ..
            },
            RenderedServeProcess::ModelRank {
                role: rendered_role,
                replica: rendered_replica,
                rank: rendered_rank,
                rank_count: rendered_rank_count,
                ..
            },
        ) => {
            &&& role@ == replica.role_id@
            &&& rendered_role@ == replica.role_id@
            &&& allocated_replica == replica.replica_index
            &&& rendered_replica == replica.replica_index
            &&& allocated_rank == rank
            &&& rendered_rank == rank
            &&& rank_count == rendered_rank_count
        },
        (
            ProcessRequirementIdentity::Frontend { process_role, components, .. },
            AllocationIdentity::Frontend {
                process_role: allocated_role,
                components: allocated_components,
            },
            RenderedServeProcess::Frontend {
                process_role: rendered_role,
                components: rendered_components,
                ..
            },
        ) => {
            &&& allocated_role == process_role
            &&& rendered_role == process_role
            &&& allocated_components == components
            &&& rendered_components == components
        },
        _ => false,
    }
}

/// The identity of a process that is one and the same throughout.
pub open spec fn identity_plan_of(
    requirement: ProcessRequirement,
    allocation: ResolvedProcessAllocation,
) -> ProcessIdentityPlan {
    match (requirement.identity, allocation.identity) {
        (
            ProcessRequirementIdentity::ModelRank { rank, .. },
            AllocationIdentity::ModelRank { rank_count, .. },
        ) => ProcessIdentityPlan::ModelRank { rank, rank_count },
        (ProcessRequirementIdentity::Frontend { process_role, components, .. }, _) => {
            ProcessIdentityPlan::Frontend { process_role, components }
        },
        (ProcessRequirementIdentity::ModelRank { rank, .. }, _) => ProcessIdentityPlan::ModelRank {
            rank,
            rank_count: 0,
        },
    }
}

/// The integration rendered the command.
pub open spec fn by_integration(requirement: ProcessRequirement) -> bool {
    match requirement.identity {
        ProcessRequirementIdentity::ModelRank { .. } => true,
        ProcessRequirementIdentity::Frontend { gateway, .. } => gateway.render_source
            == RenderSource::Integration,
    }
}

fn match_identity<'r>(
    requirement: &ProcessRequirement,
    allocation: &ResolvedProcessAllocation,
    rendered: &'r RenderedServeProcess,
) -> (r: Option<
    (ProcessIdentityPlan, &'r ProcessSpec, &'r Vec<LaunchFileDeclaration>, bool),
>)
    ensures
        match r {
            Some((identity, command, files, integration)) => {
                &&& one_process(*requirement, *allocation, *rendered)
                &&& identity == identity_plan_of(*requirement, *allocation)
                &&& *command == command_of(*rendered)
                &&& files@ == launch_files_of(*rendered)
                &&& integration == by_integration(*requirement)
            },
            None => !one_process(*requirement, *allocation, *rendered),
        },
{
    let id = requirement.id.as_str();
    if !same(allocation.process.as_str(), id) || !same(rendered_process_id(rendered), id) {
        return None;
    }
    match (&requirement.identity, &allocation.identity, rendered) {
        (
            ProcessRequirementIdentity::ModelRank { replica, rank, .. },
            AllocationIdentity::ModelRank {
                role,
                replica: allocated_replica,
                rank: allocated_rank,
                rank_count,
                ..
            },
            RenderedServeProcess::ModelRank {
                role: rendered_role,
                replica: rendered_replica,
                rank: rendered_rank,
                rank_count: rendered_rank_count,
                command,
                launch_files,
                ..
            },
        ) => {
            if same(role.as_str(), replica.role_id.as_str()) && same(
                rendered_role.as_str(),
                replica.role_id.as_str(),
            ) && *allocated_replica == replica.replica_index && *rendered_replica
                == replica.replica_index && *allocated_rank == *rank && *rendered_rank == *rank
                && *rank_count == *rendered_rank_count {
                Some(
                    (
                        ProcessIdentityPlan::ModelRank { rank: *rank, rank_count: *rank_count },
                        command,
                        launch_files,
                        true,
                    ),
                )
            } else {
                None
            }
        },
        (
            ProcessRequirementIdentity::Frontend { process_role, components, gateway, .. },
            AllocationIdentity::Frontend {
                process_role: allocated_role,
                components: allocated_components,
            },
            RenderedServeProcess::Frontend {
                process_role: rendered_role,
                components: rendered_components,
                command,
                launch_files,
                ..
            },
        ) => {
            if *allocated_role == *process_role && *rendered_role == *process_role
                && *allocated_components == *components && *rendered_components == *components {
                Some(
                    (
                        ProcessIdentityPlan::Frontend {
                            process_role: *process_role,
                            components: *components,
                        },
                        command,
                        launch_files,
                        gateway.render_source == RenderSource::Integration,
                    ),
                )
            } else {
                None
            }
        },
        _ => None,
    }
}

// ---------------------------------------------------------------------------
// Environment

/// The device indices as texts.
pub open spec fn device_texts(devices: Seq<u32>) -> Seq<Seq<char>> {
    devices.map_values(|device: u32| decimal(device as nat))
}

fn join_devices(devices: &[u32]) -> (r: String)
    ensures
        r@ == joined(device_texts(devices@), ","@),
{
    let mut parts: Vec<String> = Vec::new();
    let mut i: usize = 0;
    while i < devices.len()
        invariant
            i <= devices@.len(),
            texts(parts@) =~= device_texts(devices@.take(i as int)),
        decreases devices@.len() - i,
    {
        let ghost before = texts(parts@);
        parts.push(to_decimal(devices[i] as u64));
        proof {
            assert(texts(parts@) =~= before.push(decimal(devices@[i as int] as nat)));
            assert(devices@.take(i + 1) =~= devices@.take(i as int).push(devices@[i as int]));
        }
        i += 1;
    }
    assert(devices@.take(i as int) =~= devices@);
    join(parts.as_slice(), ",")
}

/// What a variable is set to for a process: its devices and directory, else what
/// its command says, else what it inherits.
pub open spec fn variable(
    inherited: Option<Seq<char>>,
    command: ProcessSpec,
    devices: Seq<u32>,
    cwd: Seq<char>,
    key: Seq<char>,
) -> Option<Seq<char>> {
    if key == "PWD"@ {
        Some(cwd)
    } else if key == "CUDA_VISIBLE_DEVICES"@ {
        Some(joined(device_texts(devices), ","@))
    } else {
        match command.env.text_at(key) {
            Some(text) => Some(text),
            None => inherited,
        }
    }
}

/// The variable is set on purpose.
pub open spec fn set_on_purpose(command: ProcessSpec, key: Seq<char>) -> bool {
    key == "PWD"@ || key == "CUDA_VISIBLE_DEVICES"@ || command.env.at(key) is Some
}

fn process_env(
    base: Dict<String>,
    command: &ProcessSpec,
    devices: &[u32],
    cwd: &str,
) -> (r: Dict<String>)
    requires
        base.wf(),
        command.env.wf(),
    ensures
        r.wf(),
        forall|key: Seq<char>| #[trigger]
            r.text_at(key) == variable(base.text_at(key), *command, devices@, cwd@, key),
{
    let mut env = base;
    env.extend(&command.env);
    env.set_text("CUDA_VISIBLE_DEVICES", join_devices(devices));
    env.set_text("PWD", cwd.to_owned());
    env
}

fn explicit_names(command: &ProcessSpec) -> (r: Vec<String>)
    requires
        command.env.wf(),
    ensures
        names_are(r@, |key: Seq<char>| set_on_purpose(*command, key)),
{
    let mut names = Names::new();
    let entries = &command.env.entries;
    let mut i: usize = 0;
    while i < entries.len()
        invariant
            *entries == command.env.entries,
            i <= entries@.len(),
            names.wf(),
            forall|key: Seq<char>| #[trigger]
                names.has(key) == (exists|j: int| 0 <= j < i && (#[trigger] entries@[j]).0@ == key),
        decreases entries@.len() - i,
    {
        let ghost before = names;
        names.add(entries[i].0.as_str());
        proof {
            assert forall|key: Seq<char>| #[trigger] names.has(key) == (exists|j: int|
                0 <= j < i + 1 && (#[trigger] entries@[j]).0@ == key) by {
                if before.has(key) {
                    let j = choose|j: int| 0 <= j < i && (#[trigger] entries@[j]).0@ == key;
                    assert(entries@[j].0@ == key);
                }
                if key == entries@[i as int].0@ {
                    assert(entries@[i as int].0@ == key);
                }
            }
        }
        i += 1;
    }
    let ghost keys = names;
    proof {
        assert forall|key: Seq<char>| #[trigger] keys.has(key) == (command.env.at(key) is Some) by {
            if keys.has(key) {
                let j = choose|j: int| 0 <= j < entries@.len() && (#[trigger] entries@[j]).0@ == key;
                crate::dict::lemma_lookup_at(entries@, j);
            } else if command.env.at(key) is Some {
                let j = crate::dict::lemma_lookup_found(entries@, key);
                assert(entries@[j].0@ == key);
            }
        }
    }
    names.add("CUDA_VISIBLE_DEVICES");
    names.add("PWD");
    let out = names.list();
    proof {
        assert forall|key: Seq<char>| #[trigger] lists(out@, key) == set_on_purpose(
            *command,
            key,
        ) by {
            assert(keys.has(key) == (command.env.at(key) is Some));
            assert((|name: Seq<char>| names.has(name))(key) == names.has(key));
        }
    }
    out
}

// ---------------------------------------------------------------------------
// One process

impl<'c> RealizationContext<'c> {
    /// The directory that a process runs in on a machine.
    pub open spec fn runtime_cwd(self, machine: MachineBinding) -> Seq<char> {
        joined_path(
            match machine.workspace {
                Some(root) => root@,
                None => self.workspace_root@,
            },
            ".inferlab"@,
        )
    }

    /// Why the metrics of the public process are refused.
    pub open spec fn metrics_fault(
        self,
        requirement: ProcessRequirement,
        allocation: ResolvedProcessAllocation,
        endpoint: EndpointRequirement,
    ) -> Option<Seq<char>> {
        if requirement.id@ != self.public_process@ {
            None
        } else {
            match endpoint.server_metrics {
                Some(metrics) => match metrics.port {
                    Some(name) => if allocation.ports.at(name@) is None {
                        Some(
                            "integration "@ + debug_text(self.integration@)
                                + " selected undeclared server-metrics port "@ + debug_text(name@),
                        )
                    } else {
                        None
                    },
                    None => None,
                },
                None => None,
            }
        }
    }

    /// Why a process cannot be realized.
    pub open spec fn process_fault(
        self,
        requirement: ProcessRequirement,
        allocation: ResolvedProcessAllocation,
        rendered: RenderedServeProcess,
        endpoint: EndpointRequirement,
        allocations: Seq<ResolvedProcessAllocation>,
    ) -> Option<Seq<char>> {
        let who = "integration "@ + debug_text(self.integration@);
        let command = command_of(rendered);
        if !one_process(requirement, allocation, rendered) {
            Some(
                who + " rendered process "@ + debug_text(rendered_id(rendered))
                    + " with an identity different from allocation "@ + debug_text(requirement.id@),
            )
        } else if command.argv@.len() == 0 {
            Some(who + " rendered an empty argv for process "@ + debug_text(requirement.id@))
        } else if command.env.at("CUDA_VISIBLE_DEVICES"@) is Some {
            Some(who + " attempted to select devices for process "@ + debug_text(requirement.id@))
        } else {
            or_fault(
                first_some(
                    launch_files_of(rendered).len(),
                    launch_file_fault(
                        self.integration@,
                        requirement.id@,
                        allocation.runtime_cache.path@,
                        command,
                        launch_files_of(rendered),
                    ),
                ),
                match self.machines.at(allocation.machine@) {
                    None => Some("unknown machine "@ + debug_text(allocation.machine@)),
                    Some(machine) => if !by_integration(requirement) && !(machine.launch is Local) {
                        Some(
                            "a control-plane-rendered frontend must use a local machine binding"@,
                        )
                    } else if allocation.endpoint is None {
                        Some(
                            "allocation "@ + debug_text(allocation.process@) + " has no endpoint"@,
                        )
                    } else {
                        or_fault(
                            self.metrics_fault(requirement, allocation, endpoint),
                            or_fault(
                                readiness_fault(*requirement.readiness, allocations),
                                capture_target_fault(
                                    requirement.capture_target,
                                    optional_text(self.gateway_process_id),
                                    allocations,
                                ),
                            ),
                        )
                    },
                },
            )
        }
    }

    /// The plan launches the process with what it was given.
    pub open spec fn plan_is(
        self,
        plan: ProcessPlan,
        requirement: ProcessRequirement,
        allocation: ResolvedProcessAllocation,
        rendered: RenderedServeProcess,
        allocations: Seq<ResolvedProcessAllocation>,
    ) -> bool {
        let command = command_of(rendered);
        let machine = self.machines.at(allocation.machine@)->0;
        let cwd = self.runtime_cwd(machine);
        &&& plan.id == requirement.id
        &&& plan.identity == identity_plan_of(requirement, allocation)
        &&& plan.command_source == if by_integration(requirement) {
            ProcessCommandSource::Integration
        } else {
            ProcessCommandSource::ControlPlane
        }
        &&& plan.machine == allocation.machine
        &&& match machine.launch {
            LaunchBinding::Local => plan.launch is Local,
            LaunchBinding::Ssh { target } => plan.launch == (LaunchPlan::Ssh { target }),
        }
        &&& plan.launch_dependencies@ == requirement.launch_dependencies@
        &&& *plan.allocation == allocation
        &&& plan.communication_interface is None
        &&& texts(plan.command.argv@) == if by_integration(requirement) {
            pixi_words(self.pixi_environment@) + texts(command.argv@)
        } else {
            texts(command.argv@)
        }
        &&& plan.command.env.wf()
        &&& forall|key: Seq<char>| #[trigger]
            plan.command.env.text_at(key) == variable(
                if machine.launch is Local {
                    self.current_env.text_at(key)
                } else {
                    None
                },
                command,
                allocation.devices@,
                cwd,
                key,
            )
        &&& names_are(
            plan.command.explicit_env@,
            |key: Seq<char>| set_on_purpose(command, key),
        )
        &&& plan.command.pass_env@.len() == 0
        &&& plan.command.cwd@ == cwd
        &&& plan.launch_files@.len() == launch_files_of(rendered).len()
        &&& forall|i: int|
            0 <= i < plan.launch_files@.len() ==> launch_file_is(
                #[trigger] plan.launch_files@[i],
                allocation.runtime_cache.path@,
                launch_files_of(rendered)[i],
            )
        &&& readiness_is(
            plan.readiness,
            *requirement.readiness,
            self.readiness_timeout_seconds,
            self.readiness_attempt_timeout_seconds,
            self.capture_armed,
            allocations,
        )
        &&& Some(plan.endpoint) == allocation.endpoint
        &&& capture_plan_is(
            plan.capture_target,
            requirement.capture_target,
            optional_text(self.gateway_process_id),
            allocations,
        )
    }
}

fn check_metrics(
    ctx: &RealizationContext,
    requirement: &ProcessRequirement,
    allocation: &ResolvedProcessAllocation,
    endpoint: &EndpointRequirement,
) -> (r: Result<(), InferlabError>)
    ensures
        answers(r, ctx.metrics_fault(*requirement, *allocation, *endpoint)),
{
    if !same(requirement.id.as_str(), ctx.public_process) {
        return Ok(());
    }
    if let Some(metrics) = &endpoint.server_metrics {
        if let Some(name) = &metrics.port {
            if !allocation.ports.contains_key(name.as_str()) {
                return invalid_config(
                    cat4(
                        "integration ",
                        debug(ctx.integration).as_str(),
                        " selected undeclared server-metrics port ",
                        debug(name.as_str()).as_str(),
                    ),
                );
            }
        }
    }
    Ok(())
}

/// The process as it is launched.
fn realize_process<'a>(
    ctx: &RealizationContext,
    requirement: &ProcessRequirement<'a>,
    allocation: &'a ResolvedProcessAllocation,
    rendered: &RenderedServeProcess,
    endpoint: &EndpointRequirement,
    allocations: &[ResolvedProcessAllocation],
) -> (r: Result<ProcessPlan<'a>, InferlabError>)
    requires
        ctx.current_env.wf(),
        command_of(*rendered).env.wf(),
    ensures
        match ctx.process_fault(
            *requirement,
            *allocation,
            *rendered,
            *endpoint,
            allocations@,
        ) {
            Some(text) => refuses(r, text),
            None => r is Ok && ctx.plan_is(
                r->Ok_0,
                *requirement,
                *allocation,
                *rendered,
                allocations@,
            ),
        },
{
    let who = cat2("integration ", debug(ctx.integration).as_str());
    let (identity, command, declared_files, integration_rendered) = match match_identity(
        requirement,
        allocation,
        rendered,
    ) {
        None => {
            return invalid_config(
                cat5(
                    who.as_str(),
                    " rendered process ",
                    debug(rendered_process_id(rendered)).as_str(),
                    " with an identity different from allocation ",
                    debug(requirement.id.as_str()).as_str(),
                ),
            );
        },
        Some(parts) => parts,
    };
    if command.argv.len() == 0 {
        return invalid_config(
            cat3(
                who.as_str(),
                " rendered an empty argv for process ",
                debug(requirement.id.as_str()).as_str(),
            ),
        );
    }
    if command.env.contains_key("CUDA_VISIBLE_DEVICES") {
        return invalid_config(
            cat3(
                who.as_str(),
                " attempted to select devices for process ",
                debug(requirement.id.as_str()).as_str(),
            ),
        );
    }
    let launch_files = match validate_launch_file_declarations(
        ctx.integration,
        requirement.id.as_str(),
        allocation.runtime_cache.path.as_str(),
        command,
        declared_files.as_slice(),
    ) {
        Err(error) => {
            return Err(error);
        },
        Ok(files) => files,
    };
    let machine = match ctx.machines.get(allocation.machine.as_str()) {
        None => {
            return invalid_config(
                cat2("unknown machine ", debug(allocation.machine.as_str()).as_str()),
            );
        },
        Some(machine) => machine,
    };
    let local = match machine.launch {
        LaunchBinding::Local => true,
        LaunchBinding::Ssh { .. } => false,
    };
    if !integration_rendered && !local {
        return invalid_config(
            "a control-plane-rendered frontend must use a local machine binding".to_owned(),
        );
    }
    let base = match &machine.workspace {
        Some(root) => root.as_str(),
        None => ctx.workspace_root,
    };
    let cwd = join_path(base, ".inferlab");
    let inherited: Dict<String> = if local { ctx.current_env.copy() } else { Dict::new() };
    let env = process_env(inherited, command, allocation.devices.as_slice(), cwd.as_str());
    let explicit_env = explicit_names(command);
    let at = match &allocation.endpoint {
        None => {
            return invalid_config(
                cat3(
                    "allocation ",
                    debug(allocation.process.as_str()).as_str(),
                    " has no endpoint",
                ),
            );
        },
        Some(at) => at.clone(),
    };
    match check_metrics(ctx, requirement, allocation, endpoint) {
        Err(error) => {
            return Err(error);
        },
        Ok(()) => {},
    }
    let readiness = match readiness_plan(
        requirement.readiness,
        ctx.readiness_timeout_seconds,
        ctx.readiness_attempt_timeout_seconds,
        ctx.capture_armed,
        allocations,
    ) {
        Err(error) => {
            return Err(error);
        },
        Ok(readiness) => readiness,
    };
    let capture_target = match resolve_capture_target(
        &requirement.capture_target,
        ctx.gateway_process_id,
        allocations,
    ) {
        Err(error) => {
            return Err(error);
        },
        Ok(target) => target,
    };
    let words = copy_list(command.argv.as_slice());
    let argv = if integration_rendered {
        pixi_command(ctx.pixi_environment, words)
    } else {
        words
    };
    Ok(
        ProcessPlan {
            id: requirement.id.clone(),
            identity,
            command_source: if integration_rendered {
                ProcessCommandSource::Integration
            } else {
                ProcessCommandSource::ControlPlane
            },
            machine: allocation.machine.clone(),
            launch: launch_plan(&machine.launch),
            launch_dependencies: copy_list(requirement.launch_dependencies.as_slice()),
            allocation,
            communication_interface: None,
            command: CommandPlan { argv, env, explicit_env, pass_env: Vec::new(), cwd },
            launch_files,
            readiness,
            endpoint: at,
            capture_target,
        },
    )
}

// ---------------------------------------------------------------------------
// The whole runtime

/// The metrics are those of the requirement, on the named port or the endpoint's.
pub open spec fn metrics_are(
    plan: Option<ServerMetricsEndpointPlan>,
    metrics: Option<ServerMetricsEndpointRequirement>,
    allocation: ResolvedProcessAllocation,
) -> bool {
    match (metrics, plan) {
        (None, None) => true,
        (Some(metrics), Some(plan)) => {
            let host = allocation.endpoint->0.host;
            let port = match metrics.port {
                Some(name) => allocation.ports.at(name@)->0.port,
                None => allocation.endpoint->0.port,
            };
            &&& plan.path == metrics.path
            &&& plan.port_name == metrics.port
            &&& plan.url@ == endpoint_url_text(EndpointAssignment { host, port }) + metrics.path@
        },
        _ => false,
    }
}

/// The public endpoint is that of the allocation, as it was required.
pub open spec fn public_endpoint_is(
    plan: EndpointPlan,
    requirement: EndpointRequirement,
    allocation: ResolvedProcessAllocation,
) -> bool {
    &&& Some(EndpointAssignment { host: plan.host, port: plan.port }) == allocation.endpoint
    &&& *plan.requirement == requirement
    &&& metrics_are(plan.server_metrics, requirement.server_metrics, allocation)
}

/// The processes as they are launched, and the endpoint that clients use.
pub struct RuntimeRealization<'a, 'p> {
    pub processes: Vec<ProcessPlan<'a>>,
    pub public_endpoint: EndpointPlan<'p>,
    pub device_count: u32,
    /// The machines in use, in the order of their names.
    pub selected_machines: Vec<String>,
}

/// How many devices the processes need together.
pub open spec fn devices_needed(requirements: Seq<ProcessRequirement>) -> nat
    decreases requirements.len(),
{
    if requirements.len() == 0 {
        0
    } else {
        devices_needed(requirements.drop_last()) + requirements.last().device_count as nat
    }
}

/// The first processes need no more devices than all.
proof fn lemma_devices_needed(requirements: Seq<ProcessRequirement>, n: int)
    requires
        0 <= n <= requirements.len(),
    ensures
        devices_needed(requirements.take(n)) <= devices_needed(requirements),
    decreases requirements.len() - n,
{
    if n < requirements.len() {
        assert(requirements.take(n + 1).drop_last() =~= requirements.take(n));
        lemma_devices_needed(requirements, n + 1);
    } else {
        assert(requirements.take(n) =~= requirements);
    }
}

fn build_public_endpoint<'p>(
    requirement: &'p EndpointRequirement,
    allocation: &ResolvedProcessAllocation,
    at: &EndpointAssignment,
) -> (r: EndpointPlan<'p>)
    requires
        allocation.endpoint == Some(*at),
        requirement.server_metrics matches Some(metrics) ==> (metrics.port matches Some(name)
            ==> allocation.ports.at(name@) is Some),
    ensures
        public_endpoint_is(r, *requirement, *allocation),
{
    let server_metrics = match &requirement.server_metrics {
        None => None,
        Some(metrics) => {
            let mut port: u16 = at.port;
            if let Some(name) = &metrics.port {
                if let Some(named) = allocation.ports.get(name.as_str()) {
                    port = named.port;
                }
            }
            let place = EndpointAssignment { host: at.host.clone(), port };
            Some(
                ServerMetricsEndpointPlan {
                    path: metrics.path.clone(),
                    port_name: match &metrics.port {
                        Some(name) => Some(name.clone()),
                        None => None,
                    },
                    url: cat2(endpoint_url(&place).as_str(), metrics.path.as_str()),
                },
            )
        },
    };
    EndpointPlan { host: at.host.clone(), port: at.port, requirement, server_metrics }
}

/// A machine of the allocations.
pub open spec fn machine_used(allocations: Seq<ResolvedProcessAllocation>, name: Seq<char>) -> bool {
    exists|i: int| 0 <= i < allocations.len() && (#[trigger] allocations[i]).machine@ == name
}

fn used_machines(allocations: &[ResolvedProcessAllocation]) -> (r: Vec<String>)
    ensures
        names_are(r@, |name: Seq<char>| machine_used(allocations@, name)),
{
    let mut names = Names::new();
    let mut i: usize = 0;
    while i < allocations.len()
        invariant
            i <= allocations@.len(),
            names.wf(),
            forall|name: Seq<char>| #[trigger]
                names.has(name) == machine_used(allocations@.take(i as int), name),
        decreases allocations@.len() - i,
    {
        let ghost before = names;
        names.add(allocations[i].machine.as_str());
        proof {
            let shorter = allocations@.take(i as int);
            let longer = allocations@.take(i + 1);
            assert forall|name: Seq<char>| #[trigger] names.has(name) == machine_used(
                longer,
                name,
            ) by {
                if machine_used(longer, name) {
                    let j = choose|j: int|
                        0 <= j < longer.len() && (#[trigger] longer[j]).machine@ == name;
                    if j < i {
                        assert(shorter[j].machine@ == name);
                    }
                }
                if machine_used(shorter, name) {
                    let j = choose|j: int|
                        0 <= j < shorter.len() && (#[trigger] shorter[j]).machine@ == name;
                    assert(longer[j].machine@ == name);
                }
                if name == allocations@[i as int].machine@ {
                    assert(longer[i as int].machine@ == name);
                }
            }
        }
        i += 1;
    }
    assert(allocations@.take(i as int) =~= allocations@);
    let out = names.list();
    proof {
        assert forall|name: Seq<char>| #[trigger] lists(out@, name) == machine_used(
            allocations@,
            name,
        ) by {
            assert((|k: Seq<char>| names.has(k))(name) == names.has(name));
        }
    }
    out
}

/// The rendered process of a required one.
pub open spec fn rendered_at(
    processes: Seq<RenderedServeProcess>,
    order: Seq<usize>,
    i: int,
) -> RenderedServeProcess {
    processes[order[i] as int]
}

/// Why the process at a position cannot be realized.
pub open spec fn realization_fault(
    ctx: RealizationContext,
    requirements: Seq<ProcessRequirement>,
    allocations: Seq<ResolvedProcessAllocation>,
    processes: Seq<RenderedServeProcess>,
    order: Seq<usize>,
    endpoint: EndpointRequirement,
) -> spec_fn(int) -> Option<Seq<char>> {
    |i: int|
        ctx.process_fault(
            requirements[i],
            allocations[i],
            rendered_at(processes, order, i),
            endpoint,
            allocations,
        )
}

/// The last process of the list with the id.
pub open spec fn last_named(requirements: Seq<ProcessRequirement>, id: Seq<char>) -> Option<int>
    decreases requirements.len(),
{
    if requirements.len() == 0 {
        None
    } else if requirements.last().id@ == id {
        Some(requirements.len() - 1)
    } else {
        last_named(requirements.drop_last(), id)
    }
}

/// The processes as they are launched, one for each required one, and the
/// endpoint that clients use.
pub fn realize_runtime<'a, 'p>(
    ctx: &RealizationContext,
    requirements: &[ProcessRequirement<'a>],
    allocations: &'a [ResolvedProcessAllocation],
    processes: &[RenderedServeProcess],
    order: &[usize],
    endpoint: &'p EndpointRequirement,
) -> (r: Result<RuntimeRealization<'a, 'p>, InferlabError>)
    requires
        ctx.current_env.wf(),
        requirements@.len() == allocations@.len(),
        requirements@.len() == order@.len(),
        forall|i: int| 0 <= i < order@.len() ==> (#[trigger] order@[i]) < processes@.len(),
        forall|i: int| 0 <= i < processes@.len() ==> command_of(#[trigger] processes@[i]).env.wf(),
        devices_needed(requirements@) <= u32::MAX,
    ensures
        match first_some(
            requirements@.len(),
            realization_fault(*ctx, requirements@, allocations@, processes@, order@, *endpoint),
        ) {
            Some(text) => refuses(r, text),
            None => match last_named(requirements@, ctx.public_process@) {
                None => refuses(
                    r,
                    "integration "@ + debug_text(ctx.integration@)
                        + " did not plan a public endpoint"@,
                ),
                Some(public) => {
                    &&& r is Ok
                    &&& r->Ok_0.processes@.len() == requirements@.len()
                    &&& forall|i: int|
                        0 <= i < requirements@.len() ==> ctx.plan_is(
                            #[trigger] r->Ok_0.processes@[i],
                            requirements@[i],
                            allocations@[i],
                            rendered_at(processes@, order@, i),
                            allocations@,
                        )
                    &&& public_endpoint_is(
                        r->Ok_0.public_endpoint,
                        *endpoint,
                        allocations@[public],
                    )
                    &&& r->Ok_0.device_count == devices_needed(requirements@)
                    &&& names_are(
                        r->Ok_0.selected_machines@,
                        |name: Seq<char>| machine_used(allocations@, name),
                    )
                },
            },
        },
{
    let ghost f = realization_fault(
        *ctx,
        requirements@,
        allocations@,
        processes@,
        order@,
        *endpoint,
    );
    let mut plans: Vec<ProcessPlan<'a>> = Vec::new();
    let mut public_endpoint: Option<EndpointPlan<'p>> = None;
    let mut device_count: u32 = 0;
    let mut i: usize = 0;
    assert(requirements@.take(0) =~= Seq::empty());
    while i < requirements.len()
        invariant
            i <= requirements@.len(),
            ctx.current_env.wf(),
            requirements@.len() == allocations@.len(),
            requirements@.len() == order@.len(),
            forall|j: int| 0 <= j < order@.len() ==> (#[trigger] order@[j]) < processes@.len(),
            forall|j: int|
                0 <= j < processes@.len() ==> command_of(#[trigger] processes@[j]).env.wf(),
            devices_needed(requirements@) <= u32::MAX,
            device_count == devices_needed(requirements@.take(i as int)),
            f == realization_fault(
                *ctx,
                requirements@,
                allocations@,
                processes@,
                order@,
                *endpoint,
            ),
            first_some(i as nat, f) is None,
            plans@.len() == i,
            forall|j: int|
                0 <= j < i ==> ctx.plan_is(
                    #[trigger] plans@[j],
                    requirements@[j],
                    allocations@[j],
                    rendered_at(processes@, order@, j),
                    allocations@,
                ),
            match last_named(requirements@.take(i as int), ctx.public_process@) {
                None => public_endpoint is None,
                Some(k) => 0 <= k < i && public_endpoint is Some && public_endpoint_is(
                    public_endpoint->0,
                    *endpoint,
                    allocations@[k],
                ),
            },
        decreases requirements@.len() - i,
    {
        let requirement = &requirements[i];
        let allocation = &allocations[i];
        let rendered = &processes[order[i]];
        assert(requirements@.take(i + 1).drop_last() =~= requirements@.take(i as int));
        assert(f(i as int) == ctx.process_fault(
            *requirement,
            *allocation,
            *rendered,
            *endpoint,
            allocations@,
        ));
        let plan = match realize_process(
            ctx,
            requirement,
            allocation,
            rendered,
            endpoint,
            allocations,
        ) {
            Err(error) => {
                proof {
                    lemma_first_some_stays((i + 1) as nat, requirements@.len(), f);
                }
                return Err(error);
            },
            Ok(plan) => plan,
        };
        if same(requirement.id.as_str(), ctx.public_process) {
            assert(ctx.metrics_fault(*requirement, *allocation, *endpoint) is None);
            public_endpoint = Some(build_public_endpoint(endpoint, allocation, &plan.endpoint));
        }
        proof {
            lemma_devices_needed(requirements@, i + 1);
        }
        device_count = device_count + requirement.device_count;
        plans.push(plan);
        i += 1;
    }
    assert(requirements@.take(i as int) =~= requirements@);
    match public_endpoint {
        None => invalid_config(
            cat3(
                "integration ",
                debug(ctx.integration).as_str(),
                " did not plan a public endpoint",
            ),
        ),
        Some(public_endpoint) => Ok(
            RuntimeRealization {
                processes: plans,
                public_endpoint,
                device_count,
                selected_machines: used_machines(allocations),
            },
        ),
    }
}

// ---------------------------------------------------------------------------
// Laws

/// The devices that a process sees are those that it was given, in their order:
/// its variable for them, split at the commas and read as decimal numbers, gives
/// exactly the devices of its allocation.
pub proof fn law_process_sees_its_devices(
    ctx: RealizationContext,
    plan: ProcessPlan,
    requirement: ProcessRequirement,
    allocation: ResolvedProcessAllocation,
    rendered: RenderedServeProcess,
    allocations: Seq<ResolvedProcessAllocation>,
)
    requires
        ctx.plan_is(plan, requirement, allocation, rendered, allocations),
    ensures
        plan.command.env.text_at("CUDA_VISIBLE_DEVICES"@) matches Some(text) && {
            let parts = split_on(text, ',');
            &&& allocation.devices@.len() == 0 ==> text.len() == 0
            &&& allocation.devices@.len() > 0 ==> parts.len() == allocation.devices@.len()
                && forall|i: int|
                0 <= i < parts.len() ==> all_digits(#[trigger] parts[i]) && parts[i].len() > 0
                    && decimal_value(parts[i]) == allocation.devices@[i]
        },
{
    let devices = allocation.devices@;
    let key = "CUDA_VISIBLE_DEVICES"@;
    assert(key != "PWD"@) by {
        reveal_strlit("CUDA_VISIBLE_DEVICES");
        reveal_strlit("PWD");
        assert(key.len() != "PWD"@.len());
    }
    reveal_strlit(",");
    assert(","@ =~= seq![',']);
    let parts = device_texts(devices);
    assert(plan.command.env.text_at(key) == Some(joined(parts, ","@)));
    assert forall|i: int| 0 <= i < parts.len() implies !(#[trigger] parts[i]).contains(',')
        && all_digits(parts[i]) && parts[i].len() > 0 && decimal_value(parts[i]) == devices[i] by {
        law_decimal_reads_back(devices[i] as nat);
        if parts[i].contains(',') {
            let k = choose|k: int| 0 <= k < parts[i].len() && parts[i][k] == ',';
            assert(digit(parts[i][k]));
        }
    }
    if devices.len() > 0 {
        law_split_undoes_join(parts, ',');
    }
}

/// Two processes with no device in common see no device in common.
pub proof fn law_processes_see_no_device_in_common(
    ctx: RealizationContext,
    one: ProcessPlan,
    other: ProcessPlan,
    requirements: (ProcessRequirement, ProcessRequirement),
    allocated: (ResolvedProcessAllocation, ResolvedProcessAllocation),
    rendered: (RenderedServeProcess, RenderedServeProcess),
    allocations: Seq<ResolvedProcessAllocation>,
    i: int,
    j: int,
)
    requires
        ctx.plan_is(one, requirements.0, allocated.0, rendered.0, allocations),
        ctx.plan_is(other, requirements.1, allocated.1, rendered.1, allocations),
        forall|device: u32|
            !(#[trigger] allocated.0.devices@.contains(device) && allocated.1.devices@.contains(
                device,
            )),
        0 <= i < allocated.0.devices@.len(),
        0 <= j < allocated.1.devices@.len(),
    ensures
        one.command.env.text_at("CUDA_VISIBLE_DEVICES"@) matches Some(mine)
            && other.command.env.text_at("CUDA_VISIBLE_DEVICES"@) matches Some(theirs)
            && decimal_value(split_on(mine, ',')[i]) != decimal_value(split_on(theirs, ',')[j]),
{
    law_process_sees_its_devices(
        ctx,
        one,
        requirements.0,
        allocated.0,
        rendered.0,
        allocations,
    );
    law_process_sees_its_devices(
        ctx,
        other,
        requirements.1,
        allocated.1,
        rendered.1,
        allocations,
    );
    let mine = split_on(one.command.env.text_at("CUDA_VISIBLE_DEVICES"@)->0, ',');
    let theirs = split_on(other.command.env.text_at("CUDA_VISIBLE_DEVICES"@)->0, ',');
    assert(decimal_value(mine[i]) == allocated.0.devices@[i]);
    assert(decimal_value(theirs[j]) == allocated.1.devices@[j]);
    assert(allocated.0.devices@.contains(allocated.0.devices@[i]));
    assert(allocated.1.devices@.contains(allocated.1.devices@[j]));
}

/// What a command sets of its environment the process has, whatever it inherits;
/// what the command leaves unset a local process inherits, and a remote one lacks.
/// Its directory is told in its environment.
pub proof fn law_command_prevails_over_the_environment(
    ctx: RealizationContext,
    plan: ProcessPlan,
    requirement: ProcessRequirement,
    allocation: ResolvedProcessAllocation,
    rendered: RenderedServeProcess,
    allocations: Seq<ResolvedProcessAllocation>,
    machine: MachineBinding,
    key: Seq<char>,
)
    requires
        ctx.plan_is(plan, requirement, allocation, rendered, allocations),
        ctx.machines.at(allocation.machine@) == Some(machine),
    ensures
        plan.command.env.text_at("PWD"@) == Some(plan.command.cwd@),
        key != "PWD"@ && key != "CUDA_VISIBLE_DEVICES"@ ==> ({
            let set = match rendered {
                RenderedServeProcess::ModelRank { command, .. } => command.env.text_at(key),
                RenderedServeProcess::Frontend { command, .. } => command.env.text_at(key),
            };
            &&& set is Some ==> plan.command.env.text_at(key) == set
            &&& set is None && machine.launch is Local ==> plan.command.env.text_at(key)
                == ctx.current_env.text_at(key)
            &&& set is None && machine.launch is Ssh ==> plan.command.env.text_at(key) is None
        }),
        plan.launch is Local <==> machine.launch is Local,
        machine.launch matches LaunchBinding::Ssh { target } ==> plan.launch == (LaunchPlan::Ssh {
            target,
        }),
{
}

/// A process runs the words that were rendered for it, at the end of its command; a
/// model rank runs them in the environment of the workspace.
pub proof fn law_process_runs_its_rendered_words(
    ctx: RealizationContext,
    plan: ProcessPlan,
    requirement: ProcessRequirement,
    allocation: ResolvedProcessAllocation,
    rendered: RenderedServeProcess,
    allocations: Seq<ResolvedProcessAllocation>,
)
    requires
        ctx.plan_is(plan, requirement, allocation, rendered, allocations),
    ensures
        ({
            let words = match rendered {
                RenderedServeProcess::ModelRank { command, .. } => texts(command.argv@),
                RenderedServeProcess::Frontend { command, .. } => texts(command.argv@),
            };
            let run = texts(plan.command.argv@);
            let local = match requirement.identity {
                ProcessRequirementIdentity::ModelRank { .. } => false,
                ProcessRequirementIdentity::Frontend { gateway, .. } => gateway.render_source
                    == RenderSource::ControlPlane,
            };
            &&& run.len() >= words.len()
            &&& run.skip(run.len() - words.len()) == words
            &&& local <==> plan.command_source == ProcessCommandSource::ControlPlane
            &&& local ==> run == words
            &&& !local ==> run.len() == words.len() + 7 && run[0] == "pixi"@ && run[1] == "run"@
                && run[4] == "-e"@ && run[5] == ctx.pixi_environment@ && run[6] == "--"@
        }),
{
    let words = texts(command_of(rendered).argv@);
    let run = texts(plan.command.argv@);
    assert(run.skip(run.len() - words.len()) =~= words);
}

/// A process is awaited at the endpoint that it was given and under the id that was
/// required of it, after the processes that it depends on.
pub proof fn law_process_keeps_its_place(
    ctx: RealizationContext,
    plan: ProcessPlan,
    requirement: ProcessRequirement,
    allocation: ResolvedProcessAllocation,
    rendered: RenderedServeProcess,
    allocations: Seq<ResolvedProcessAllocation>,
)
    requires
        ctx.plan_is(plan, requirement, allocation, rendered, allocations),
        one_process(requirement, allocation, rendered),
    ensures
        plan.id@ == allocation.process@,
        plan.machine@ == allocation.machine@,
        allocation.endpoint == Some(plan.endpoint),
        plan.launch_dependencies@ == requirement.launch_dependencies@,
        (allocation.identity matches AllocationIdentity::ModelRank { rank, rank_count, .. }
            ==> plan.identity == (ProcessIdentityPlan::ModelRank { rank, rank_count })),
        (allocation.identity matches AllocationIdentity::Frontend { process_role, components }
            ==> plan.identity == (ProcessIdentityPlan::Frontend { process_role, components })),
{
}

/// The windows of a capture are opened and closed at the endpoint of the process
/// that controls them: that of the replica's entry, or the gateway's. What opens
/// them goes to the start path, what closes them to the stop path.
pub proof fn law_windows_are_controlled_where_the_target_says(
    plan: ProcessCapturePlan,
    target: PendingCaptureTargetPlan,
    gateway: Option<Seq<char>>,
    allocations: Seq<ResolvedProcessAllocation>,
    endpoint: EndpointAssignment,
)
    requires
        capture_plan_is(Some(plan), Some(target), gateway, allocations),
        capture_target_fault(Some(target), gateway, allocations) is None,
        endpoint_of(allocations, plan.control_process_id@) == Some(endpoint),
    ensures
        target.window_control_endpoint == CaptureWindowControlEndpoint::ReplicaEntry
            ==> plan.control_process_id@ == target.replica_entry_process_id@,
        target.window_control_endpoint == CaptureWindowControlEndpoint::Gateway ==> gateway == Some(
            plan.control_process_id@,
        ),
        plan.start.path == target.start.path,
        plan.stop.path == target.stop.path,
        plan.start.method == target.start.method,
        plan.stop.method == target.stop.method,
        plan.start.body == target.start.body,
        plan.stop.body == target.stop.body,
        plan.start.effective_url@ == endpoint_url_text(endpoint) + target.start.path@,
        plan.stop.effective_url@ == endpoint_url_text(endpoint) + target.stop.path@,
{
}

/// The devices of a server are those of its processes together.
pub proof fn law_devices_needed_add_up(
    some: Seq<ProcessRequirement>,
    others: Seq<ProcessRequirement>,
)
    ensures
        devices_needed(some + others) == devices_needed(some) + devices_needed(others),
        some.len() == 1 ==> devices_needed(some) == some[0].device_count,
    decreases others.len(),
{
    if others.len() == 0 {
        assert(some + others =~= some);
    } else {
        assert((some + others).drop_last() =~= some + others.drop_last());
        law_devices_needed_add_up(some, others.drop_last());
    }
    if some.len() == 1 {
        assert(devices_needed(some.drop_last()) == 0);
    }
}

/// Clients reach a server at the endpoint of its public process; its metrics are on
/// the port that is named for them, or on that of the endpoint.
pub proof fn law_clients_reach_the_public_process(
    plan: EndpointPlan,
    requirement: EndpointRequirement,
    allocation: ResolvedProcessAllocation,
    endpoint: EndpointAssignment,
)
    requires
        public_endpoint_is(plan, requirement, allocation),
        allocation.endpoint == Some(endpoint),
    ensures
        plan.host == endpoint.host,
        plan.port == endpoint.port,
        plan.server_metrics is Some <==> requirement.server_metrics is Some,
        (requirement.server_metrics matches Some(metrics) ==> {
            let given = plan.server_metrics->0;
            &&& given.path == metrics.path
            &&& metrics.port is None ==> given.url@ == endpoint_url_text(endpoint) + metrics.path@
            &&& (metrics.port matches Some(name) ==> (allocation.ports.at(name@) matches Some(at)
                ==> given.url@ == endpoint_url_text(
                EndpointAssignment { host: endpoint.host, port: at.port },
            ) + metrics.path@))
        }),
{
}

/// A process that can be realized is the one that was required and allocated, has a command
/// and an endpoint, selects no devices itself and runs on a known machine, on a local one
/// where the integration did not render it.
pub proof fn law_realized_process_can_be_run(
    ctx: RealizationContext,
    requirement: ProcessRequirement,
    allocation: ResolvedProcessAllocation,
    rendered: RenderedServeProcess,
    endpoint: EndpointRequirement,
    allocations: Seq<ResolvedProcessAllocation>,
)
    requires
        ctx.process_fault(requirement, allocation, rendered, endpoint, allocations) is None,
    ensures
        allocation.process@ == requirement.id@,
        match rendered {
            RenderedServeProcess::ModelRank { process, command, .. } => process@ == requirement.id@
                && command.argv@.len() > 0 && command.env.at("CUDA_VISIBLE_DEVICES"@) is None,
            RenderedServeProcess::Frontend { process, command, .. } => process@ == requirement.id@
                && command.argv@.len() > 0 && command.env.at("CUDA_VISIBLE_DEVICES"@) is None,
        },
        allocation.endpoint is Some,
        ctx.machines.at(allocation.machine@) matches Some(machine) && (
        requirement.identity matches ProcessRequirementIdentity::Frontend { gateway, .. } ==> (
        gateway.render_source != RenderSource::Integration ==> machine.launch is Local)),
        requirement.id@ == ctx.public_process@ && endpoint.server_metrics is Some
            && endpoint.server_metrics->0.port is Some ==> allocation.ports.at(
            endpoint.server_metrics->0.port->0@,
        ) is Some,
{
}

/// The process of an id is the last one that has it.
pub proof fn law_last_process_of_an_id_counts(
    requirements: Seq<ProcessRequirement>,
    id: Seq<char>,
    i: int,
)
    requires
        0 <= i < requirements.len(),
        requirements[i].id@ == id,
        forall|j: int| i < j < requirements.len() ==> (#[trigger] requirements[j]).id@ != id,
    ensures
        last_named(requirements, id) == Some(i),
    decreases requirements.len(),
{
    if i < requirements.len() - 1 {
        assert(requirements[requirements.len() - 1].id@ != id);
        law_last_process_of_an_id_counts(requirements.drop_last(), id, i);
    }
}

} // verus!
