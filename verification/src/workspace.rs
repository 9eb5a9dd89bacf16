//! What a workspace declares and what a machine binds: the definitions and
//! bindings that resolution reads.

use crate::dict::Dict;
use crate::protocol::{CaptureMechanism, KvTransferMechanism, Parallelism, ServeTopology};
use crate::text::{copy_list, copy_text};
use crate::toml_value::TomlValue;
use vstd::prelude::*;
use vstd::string::*;

verus! {

/// Extra inputs of the Nsight Systems commands.
#[derive(Clone, Debug)]
pub struct NsysEscapes {
    pub executable: Option<String>,
    pub launch_options: Vec<String>,
    pub start_options: Vec<String>,
    pub trace: Vec<String>,
    pub sampling: Option<String>,
    pub context_switch: Option<String>,
    pub env: Dict<String>,
}

impl NsysEscapes {
    /// Nothing is declared.
    pub open spec fn blank(self) -> bool {
        &&& self.executable is None
        &&& self.launch_options@.len() == 0
        &&& self.start_options@.len() == 0
        &&& self.trace@.len() == 0
        &&& self.sampling is None
        &&& self.context_switch is None
        &&& self.env.entries@.len() == 0
    }

    /// The same inputs.
    pub open spec fn same(self, other: NsysEscapes) -> bool {
        &&& self.executable == other.executable
        &&& self.launch_options@ == other.launch_options@
        &&& self.start_options@ == other.start_options@
        &&& self.trace@ == other.trace@
        &&& self.sampling == other.sampling
        &&& self.context_switch == other.context_switch
        &&& self.env.entries@ == other.env.entries@
    }

    /// A copy of the inputs.
    pub fn copy(&self) -> (r: NsysEscapes)
        ensures
            r.same(*self),
    {
        NsysEscapes {
            executable: copy_text(&self.executable),
            launch_options: copy_list(self.launch_options.as_slice()),
            start_options: copy_list(self.start_options.as_slice()),
            trace: copy_list(self.trace.as_slice()),
            sampling: copy_text(&self.sampling),
            context_switch: copy_text(&self.context_switch),
            env: self.env.copy(),
        }
    }

    /// Whether nothing is declared.
    pub fn is_empty(&self) -> (r: bool)
        ensures
            r == self.blank(),
    {
        self.executable.is_none() && self.launch_options.len() == 0 && self.start_options.len() == 0
            && self.trace.len() == 0 && self.sampling.is_none() && self.context_switch.is_none()
            && self.env.is_empty()
    }
}

impl Default for NsysEscapes {
    fn default() -> (r: Self)
        ensures
            r.blank(),
    {
        NsysEscapes {
            executable: None,
            launch_options: Vec::new(),
            start_options: Vec::new(),
            trace: Vec::new(),
            sampling: None,
            context_switch: None,
            env: Dict::new(),
        }
    }
}

/// A profiler declaration.
#[derive(Clone, Debug)]
pub struct ProfilerDefinition {
    pub mechanism: Option<CaptureMechanism>,
    pub nsys: NsysEscapes,
}

impl ProfilerDefinition {
    /// Nothing is declared.
    pub open spec fn blank(self) -> bool {
        self.mechanism is None && self.nsys.blank()
    }

    /// Whether nothing is declared.
    pub fn is_empty(&self) -> (r: bool)
        ensures
            r == self.blank(),
    {
        self.mechanism.is_none() && self.nsys.is_empty()
    }
}

/// How processes are started on a machine.
#[derive(Debug)]
pub enum LaunchBinding {
    Local,
    Ssh { target: String },
}

impl Clone for LaunchBinding {
    fn clone(&self) -> (r: Self)
        ensures
            r == *self,
    {
        match self {
            LaunchBinding::Local => LaunchBinding::Local,
            LaunchBinding::Ssh { target } => LaunchBinding::Ssh { target: target.clone() },
        }
    }
}

/// A machine.
#[derive(Clone, Debug)]
pub struct MachineBinding {
    pub host: String,
    pub launch: LaunchBinding,
    /// The device indices, without repetition.
    pub devices: Vec<u32>,
    /// The port numbers, without repetition.
    pub ports: Vec<u16>,
    pub cache_root: Option<String>,
    pub workspace: Option<String>,
}

/// A rank bound to devices of a machine.
#[derive(Clone, Debug)]
pub struct RankBinding {
    pub machine: String,
    pub devices: Vec<u32>,
    pub endpoint_port: Option<u16>,
}

/// The ranks of one replica.
#[derive(Clone, Debug)]
pub struct ReplicaBinding {
    pub ranks: Vec<RankBinding>,
}

/// Where a role is placed: on machines to choose from, or rank by rank.
#[derive(Clone, Debug)]
pub enum PlacementRoleBinding {
    Machines { machines: Vec<String> },
    Replicas { replicas: Vec<ReplicaBinding> },
}

impl PlacementRoleBinding {
    /// The machines to choose from, where the role is bound so.
    pub fn machines(&self) -> (r: Option<&Vec<String>>)
        ensures
            match *self {
                PlacementRoleBinding::Machines { machines } => r == Some(&machines),
                PlacementRoleBinding::Replicas { .. } => r is None,
            },
    {
        match self {
            PlacementRoleBinding::Machines { machines } => Some(machines),
            PlacementRoleBinding::Replicas { .. } => None,
        }
    }

    /// Whether the role is bound rank by rank.
    pub fn uses_explicit_replicas(&self) -> (r: bool)
        ensures
            r == (*self is Replicas),
    {
        match self {
            PlacementRoleBinding::Machines { .. } => false,
            PlacementRoleBinding::Replicas { .. } => true,
        }
    }

    /// The number of replicas, where the role is bound rank by rank.
    pub open spec fn replicas_bound(self) -> Option<nat> {
        match self {
            PlacementRoleBinding::Machines { .. } => None,
            PlacementRoleBinding::Replicas { replicas } => Some(replicas@.len()),
        }
    }

    /// The number of replicas, where the role is bound rank by rank.
    pub fn replica_count(&self) -> (r: Option<usize>)
        ensures
            match r {
                Some(n) => self.replicas_bound() == Some(n as nat),
                None => self.replicas_bound() is None,
            },
    {
        match self {
            PlacementRoleBinding::Machines { .. } => None,
            PlacementRoleBinding::Replicas { replicas } => Some(replicas.len()),
        }
    }

    /// The ranks of a replica, where they are bound.
    pub open spec fn ranks_at(self, index: int) -> Option<Vec<RankBinding>> {
        match self {
            PlacementRoleBinding::Machines { .. } => None,
            PlacementRoleBinding::Replicas { replicas } => if 0 <= index < replicas@.len() {
                Some(replicas@[index].ranks)
            } else {
                None
            },
        }
    }

    /// The ranks of a replica, where they are bound.
    pub fn ranks_for_replica(&self, index: usize) -> (r: Option<&Vec<RankBinding>>)
        ensures
            match r {
                Some(ranks) => self.ranks_at(index as int) == Some(*ranks),
                None => self.ranks_at(index as int) is None,
            },
    {
        match self {
            PlacementRoleBinding::Machines { .. } => None,
            PlacementRoleBinding::Replicas { replicas } => if index < replicas.len() {
                Some(&replicas[index].ranks)
            } else {
                None
            },
        }
    }
}

/// A placement.
#[derive(Clone, Debug)]
pub struct PlacementBinding {
    pub machines: Vec<String>,
    pub roles: Dict<PlacementRoleBinding>,
}

/// Where the weights of a model are found.
#[derive(Clone, Debug)]
pub struct ModelWeightBinding {
    pub locator: Option<String>,
    pub machine_locators: Dict<String>,
}

/// The state of the sources that a workspace was loaded from.
#[derive(Clone, Debug)]
pub struct WorkspaceSnapshot {
    pub revision: String,
    pub dirty: bool,
    pub source_digest: String,
    pub source_exclusions: Vec<String>,
    pub pixi_manifest_sha256: String,
    pub pixi_lock_sha256: String,
}

/// What a server declares for a role, or a case or an invocation changes of it.
#[derive(Debug)]
pub struct ServerRoleDefinition {
    pub replicas: Option<u32>,
    pub parallelism: Parallelism,
    pub settings: TomlValue,
}

/// What a case changes of its server.
#[derive(Debug)]
pub struct ServerCaseDefinition {
    pub readiness_timeout_seconds: Option<u64>,
    pub readiness_attempt_timeout_seconds: Option<u64>,
    pub capture_arm_deadline_seconds: Option<u64>,
    pub capture_control_deadline_seconds: Option<u64>,
    pub capture_finalization_deadline_seconds: Option<u64>,
    pub gateway_backend: Option<String>,
    pub pd_router_backend: Option<String>,
    pub kv_transfer: Option<KvTransferMechanism>,
    pub profiling: Option<bool>,
    pub parallelism: Parallelism,
    pub settings: TomlValue,
    pub roles: Dict<ServerRoleDefinition>,
}

/// A server.
#[derive(Debug)]
pub struct ServerDefinition {
    pub model: String,
    pub stack: String,
    pub topology: ServeTopology,
    pub readiness_timeout_seconds: u64,
    pub readiness_attempt_timeout_seconds: Option<u64>,
    pub capture_arm_deadline_seconds: Option<u64>,
    pub capture_control_deadline_seconds: Option<u64>,
    pub capture_finalization_deadline_seconds: Option<u64>,
    pub gateway_backend: Option<String>,
    pub pd_router_backend: Option<String>,
    pub kv_transfer: Option<KvTransferMechanism>,
    pub profiling: Option<bool>,
    pub parallelism: Parallelism,
    pub settings: TomlValue,
    pub roles: Dict<ServerRoleDefinition>,
    pub cases: Dict<ServerCaseDefinition>,
    pub default_case: Option<String>,
}

/// A model.
#[derive(Debug)]
pub struct ModelDefinition {
    pub served_name: String,
}

/// A software stack.
#[derive(Debug)]
pub struct StackDefinition {
    pub integration: String,
    pub pixi_environment: Option<String>,
    pub source_paths: Vec<String>,
}

/// A recipe: a server and the workloads to measure it with.
#[derive(Debug)]
pub struct RecipeDefinition {
    pub server: String,
    pub workload_suite: String,
}

/// A loaded workspace: its definitions and the local bindings.
#[derive(Debug)]
pub struct LoadedWorkspace {
    pub recipes: Dict<RecipeDefinition>,
    pub servers: Dict<ServerDefinition>,
    pub models: Dict<ModelDefinition>,
    pub stacks: Dict<StackDefinition>,
    pub workload_suites: Dict<TomlValue>,
    pub model_weights: Dict<ModelWeightBinding>,
    pub placements: Dict<PlacementBinding>,
    pub default_placement: Option<String>,
}

impl LoadedWorkspace {
    /// Every default case is a case of its server.
    pub open spec fn wf(self) -> bool {
        forall|id: Seq<char>|
            self.servers.at(id) is Some && (#[trigger] self.servers.at(id))->0.default_case is Some
                ==> self.servers.at(id)->0.cases.at(self.servers.at(id)->0.default_case->0@) is Some
    }
}

} // verus!
