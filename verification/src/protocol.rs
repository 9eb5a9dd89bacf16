//! What the control plane and an integration tell each other: the request for a
//! serving plan, the plan, and the processes rendered from it.

use crate::dict::Dict;
use vstd::prelude::*;
use vstd::string::*;

verus! {

/// How a server is laid out.
#[derive(Clone, Copy, Debug, PartialEq, Eq, Structural)]
pub enum ServeTopology {
    Single,
    PrefillDecode,
}

/// What an engine role does.
#[derive(Clone, Copy, Debug, PartialEq, Eq, Structural)]
pub enum ServeRoleKind {
    Serve,
    Prefill,
    Decode,
}

/// How key-value blocks move between engines.
#[derive(Clone, Copy, Debug, PartialEq, Eq, Structural)]
pub enum KvTransferMechanism {
    Mooncake,
    Nixl,
}

/// Who renders the command of a component.
#[derive(Clone, Copy, Debug, PartialEq, Eq, Structural)]
pub enum RenderSource {
    Integration,
    ControlPlane,
}

/// The role of a frontend process.
#[derive(Clone, Copy, Debug, PartialEq, Eq, Structural)]
pub enum FrontendProcessRole {
    Gateway,
}

/// The components that one frontend process runs.
#[derive(Clone, Copy, Debug, PartialEq, Eq, Structural)]
pub enum FrontendComponents {
    Gateway,
    GatewayPdRouter,
}

/// How a capture is taken.
#[derive(Clone, Copy, Debug, PartialEq, Eq, Structural)]
pub enum CaptureMechanism {
    Nsys,
    EngineTrace,
}

/// Which process opens and closes capture windows.
#[derive(Clone, Copy, Debug, PartialEq, Eq, Structural)]
pub enum CaptureWindowControlEndpoint {
    ReplicaEntry,
    Gateway,
}

/// The method of an HTTP action.
#[derive(Clone, Copy, Debug, PartialEq, Eq, Structural)]
pub enum HttpMethod {
    Post,
}

/// The protocol of an endpoint.
#[derive(Clone, Copy, Debug, PartialEq, Eq, Structural)]
pub enum EndpointProtocol {
    Http,
}

/// The scheme under which a target is registered.
#[derive(Clone, Copy, Debug, PartialEq, Eq, Structural)]
pub enum TargetEndpointScheme {
    Http,
    Grpc,
}

/// How a frontend hands requests on.
#[derive(Clone, Copy, Debug, PartialEq, Eq, Structural)]
pub enum FrontendHandoff {
    InProcess,
}

/// A setting of an engine or a component.
#[derive(Debug)]
pub enum SettingValue {
    Null,
    Bool(bool),
    Integer(i64),
    /// A number with a fraction, by its IEEE 754 bits.
    Fraction(u64),
    Text(String),
    List(Vec<SettingValue>),
    Object(Vec<(String, SettingValue)>),
}

/// Parallelism across a whole engine.
#[derive(Clone, Copy, Debug, PartialEq, Eq, Structural)]
pub struct OuterParallelism {
    pub tensor_parallel_size: Option<u32>,
    pub pipeline_parallel_size: Option<u32>,
}

/// Parallelism of the attention layers.
#[derive(Clone, Copy, Debug, PartialEq, Eq, Structural)]
pub struct AttentionParallelism {
    pub tensor_parallel_size: Option<u32>,
    pub data_parallel_size: Option<u32>,
    pub context_parallel_size: Option<u32>,
}

/// Parallelism of the expert layers.
#[derive(Clone, Copy, Debug, PartialEq, Eq, Structural)]
pub struct ExpertParallelism {
    pub tensor_parallel_size: Option<u32>,
    pub data_parallel_size: Option<u32>,
    pub expert_parallel_size: Option<u32>,
    pub dense_tensor_parallel_size: Option<u32>,
}

/// The parallelism of a role.
#[derive(Clone, Copy, Debug, PartialEq, Eq, Structural)]
pub struct Parallelism {
    pub outer: Option<OuterParallelism>,
    pub attention: Option<AttentionParallelism>,
    pub experts: Option<ExpertParallelism>,
}

/// Where a process listens.
#[derive(Debug, PartialEq, Eq)]
pub struct EndpointAssignment {
    pub host: String,
    pub port: u16,
}

impl Clone for EndpointAssignment {
    fn clone(&self) -> (r: Self)
        ensures
            r == *self,
    {
        EndpointAssignment { host: self.host.clone(), port: self.port }
    }
}

/// The metrics that a public endpoint offers.
#[derive(Clone, Debug)]
pub struct ServerMetricsEndpointRequirement {
    pub path: String,
    pub port: Option<String>,
}

/// An HTTP action that a server offers.
#[derive(Clone, Debug)]
pub struct HttpAction {
    pub method: HttpMethod,
    pub path: String,
}

/// What a public endpoint must offer.
#[derive(Clone, Debug)]
pub struct EndpointRequirement {
    pub protocol: EndpointProtocol,
    pub completions_path: String,
    pub chat_completions_path: String,
    pub server_metrics: Option<ServerMetricsEndpointRequirement>,
    pub prefix_cache_reset: Option<HttpAction>,
    pub prefix_cache_conditioning: Option<HttpAction>,
    pub prompt_cache_read_zero_representation: Option<String>,
}

/// A file that rendering needs.
#[derive(Clone, Debug)]
pub struct RenderInputDeclaration {
    pub source_path: String,
}

/// A file that rendering needs, with its text.
#[derive(Debug, PartialEq, Eq)]
pub struct SuppliedRenderInput {
    pub source_path: String,
    pub text: String,
    pub sha256: String,
}

impl Clone for SuppliedRenderInput {
    fn clone(&self) -> (r: Self)
        ensures
            r == *self,
    {
        SuppliedRenderInput {
            source_path: self.source_path.clone(),
            text: self.text.clone(),
            sha256: self.sha256.clone(),
        }
    }
}

/// An engine role in the request for a plan.
#[derive(Debug)]
pub struct ServeRoleInput {
    pub id: String,
    pub kind: ServeRoleKind,
    pub replica_count: u32,
    pub parallelism: Parallelism,
    pub settings: Dict<SettingValue>,
}

/// An engine role in the plan.
#[derive(Debug)]
pub struct ServeRoleResult {
    pub id: String,
    pub kind: ServeRoleKind,
    pub declared_replica_count: u32,
    pub effective_replica_count: u32,
    pub effective_settings: Dict<SettingValue>,
    pub effective_parallelism: Parallelism,
    pub public_endpoint: Option<EndpointRequirement>,
    pub render_inputs: Vec<RenderInputDeclaration>,
}

/// How a target registry reports its targets.
#[derive(Clone, Debug)]
pub struct TargetRegistryProbe {
    pub readiness_path: String,
    pub registry_path: String,
    pub targets_field: String,
    pub target_url_field: String,
    pub target_role_field: String,
    pub target_healthy_field: String,
    pub target_bootstrap_port_field: String,
    pub prefill_role_value: String,
    pub decode_role_value: String,
    pub prefill_bootstrap_port: String,
    pub target_scheme: TargetEndpointScheme,
}

/// How the readiness of a process is found out.
#[derive(Clone, Debug)]
pub enum ReadinessProbe {
    Http { path: String },
    HttpTargetRegistry(TargetRegistryProbe),
    ProcessAlive,
}

/// An action that opens or closes a capture window.
#[derive(Debug, PartialEq, Eq)]
pub struct CaptureWindowHttpActionSpec {
    pub method: HttpMethod,
    pub path: String,
    pub body: Option<String>,
}

impl Clone for CaptureWindowHttpActionSpec {
    fn clone(&self) -> (r: Self)
        ensures
            r == *self,
    {
        CaptureWindowHttpActionSpec {
            method: self.method,
            path: self.path.clone(),
            body: match &self.body {
                Some(body) => Some(body.clone()),
                None => None,
            },
        }
    }
}

/// How capture windows are opened and closed.
#[derive(Clone, Debug)]
pub struct CaptureWindowControl {
    pub endpoint: CaptureWindowControlEndpoint,
    pub start: CaptureWindowHttpActionSpec,
    pub stop: CaptureWindowHttpActionSpec,
}

/// A replica that can be profiled.
#[derive(Clone, Debug)]
pub struct CaptureTargetRequirement {
    pub mechanism: CaptureMechanism,
    pub window_control: CaptureWindowControl,
}

/// A replica of an engine role in the plan.
#[derive(Clone, Debug)]
pub struct ServeReplicaRequirement {
    pub id: String,
    pub role_id: String,
    pub replica_index: u32,
    pub device_count: u32,
    pub ports: Vec<String>,
    pub primary_ports: Vec<String>,
    pub primary_readiness: ReadinessProbe,
    pub worker_readiness: ReadinessProbe,
    pub capture_target: Option<CaptureTargetRequirement>,
}

/// A connection between components.
#[derive(Clone, Debug)]
pub enum ServeRoleLink {
    RequestRouting { source: String, targets: Vec<String> },
    KvTransfer { source: String, target: String, mechanism: KvTransferMechanism },
    Bootstrap { source: String, target: String, port: String },
    SideChannel { source: String, target: String, port: String },
}

/// What a gateway forwards to.
#[derive(Clone, Debug)]
pub enum GatewayTarget {
    Engine { role: String },
    PdRouter,
}

/// The process that a frontend component is rendered into.
#[derive(Clone, Copy, Debug, PartialEq, Eq, Structural)]
pub struct FrontendCoRendering {
    pub process_role: FrontendProcessRole,
}

/// The gateway component.
#[derive(Debug)]
pub struct GatewayPlan {
    pub backend: String,
    pub implementation: String,
    pub implementation_version: String,
    pub effective_settings: Dict<SettingValue>,
    pub endpoint: EndpointRequirement,
    pub readiness: ReadinessProbe,
    pub ports: Vec<String>,
    pub targets: Vec<GatewayTarget>,
    pub render_inputs: Vec<RenderInputDeclaration>,
    pub render_source: RenderSource,
    pub co_rendering: FrontendCoRendering,
}

/// How requests are spread over the engines.
#[derive(Clone, Debug)]
pub struct PdRoutingPolicies {
    pub prefill: String,
    pub decode: String,
}

/// The component that routes between prefill and decode engines.
#[derive(Debug)]
pub struct PdRouterPlan {
    pub backend: String,
    pub implementation: String,
    pub implementation_version: String,
    pub effective_settings: Dict<SettingValue>,
    pub policies: PdRoutingPolicies,
    pub prefill_role: String,
    pub decode_role: String,
    pub target_scheme: TargetEndpointScheme,
    pub ports: Vec<String>,
    pub readiness: ReadinessProbe,
    pub handoff: FrontendHandoff,
    pub render_inputs: Vec<RenderInputDeclaration>,
    pub render_source: RenderSource,
    pub co_rendering: FrontendCoRendering,
}

/// Who planned.
#[derive(Clone, Debug)]
pub struct IntegrationIdentity {
    pub adapter_id: String,
    pub adapter_version: String,
    pub framework: String,
    pub framework_version: String,
}

/// A draft acceptance length: its IEEE 754 bits and its decimal text.
#[derive(Clone, Debug)]
pub struct AcceptanceLength {
    pub bits: u64,
    pub text: String,
}

/// The acceptance that an integration resolved.
#[derive(Clone, Debug)]
pub struct SyntheticAcceptanceOutcome {
    pub acceptance_length: AcceptanceLength,
    pub draft_count: Option<u32>,
}

/// A golden curve in the request for a plan.
#[derive(Clone, Debug)]
pub struct SyntheticAcceptanceCurveInput {
    pub model_key: String,
    pub thinking_mode: Option<String>,
    pub text: String,
    pub sha256: String,
}

/// The synthetic acceptance in the request for a plan.
#[derive(Clone, Debug)]
pub enum SyntheticAcceptanceInput {
    Explicit { acceptance_length: AcceptanceLength },
    Curve(SyntheticAcceptanceCurveInput),
}

/// An integration's plan for a server.
#[derive(Debug)]
pub struct PlanServeResult {
    pub integration: IntegrationIdentity,
    pub synthetic_acceptance: Option<SyntheticAcceptanceOutcome>,
    pub roles: Vec<ServeRoleResult>,
    pub replicas: Vec<ServeReplicaRequirement>,
    pub links: Vec<ServeRoleLink>,
    pub gateway: Option<GatewayPlan>,
    pub pd_router: Option<PdRouterPlan>,
}

/// A file that is written for a process before it is launched.
#[derive(Clone, Debug)]
pub struct LaunchFileDeclaration {
    pub relative_path: String,
    pub text: String,
    pub sha256: String,
}

/// A command and the environment that it is given.
#[derive(Debug)]
pub struct ProcessSpec {
    pub argv: Vec<String>,
    pub env: Dict<String>,
}

/// A process as it was rendered.
#[derive(Debug)]
pub enum RenderedServeProcess {
    ModelRank {
        process: String,
        role: String,
        replica: u32,
        rank: u32,
        rank_count: u32,
        command: ProcessSpec,
        launch_files: Vec<LaunchFileDeclaration>,
    },
    Frontend {
        process: String,
        process_role: FrontendProcessRole,
        components: FrontendComponents,
        command: ProcessSpec,
        launch_files: Vec<LaunchFileDeclaration>,
    },
}

/// What an integration rendered.
#[derive(Debug)]
pub struct RenderServeResult {
    pub integration: IntegrationIdentity,
    pub processes: Vec<RenderedServeProcess>,
}

} // verus!
