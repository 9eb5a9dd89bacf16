//! The effective server input: what the declarations of a server, its case and
//! the invocation come to, before an integration plans anything.

use crate::dict::Dict;
use crate::error::{invalid_config, refuses, InferlabError};
use crate::protocol::{
    AttentionParallelism, ExpertParallelism, KvTransferMechanism, OuterParallelism, Parallelism,
    ServeRoleKind, ServeTopology,
};
use crate::resolve::workflow::Workflow;
use crate::search::{
    first_index, first_some, lemma_first_index, lemma_first_index_is, lemma_first_some_stays,
};
use crate::text::{
    after_prefix, cat2, cat3, cat4, cat5, debug, debug_text, same, starts, starts_with,
};
use crate::toml_override::{
    apply_toml_patch, assignment_of, merged, refuses_override, ExactTomlOverride,
    InvocationOverride,
};
use crate::toml_value::{copy_value, entry_at, toml_parsed, TomlValue, Tree};
use crate::workspace::{ServerCaseDefinition, ServerDefinition, ServerRoleDefinition};
use vstd::prelude::*;
use vstd::string::*;

verus! {

// ---------------------------------------------------------------------------
// Roles

/// The name of a kind of role.
pub open spec fn kind_text(kind: ServeRoleKind) -> Seq<char> {
    match kind {
        ServeRoleKind::Serve => "serve"@,
        ServeRoleKind::Prefill => "prefill"@,
        ServeRoleKind::Decode => "decode"@,
    }
}

/// The name of a kind of role.
pub fn kind_name(kind: ServeRoleKind) -> (r: &'static str)
    ensures
        r@ == kind_text(kind),
{
    match kind {
        ServeRoleKind::Serve => "serve",
        ServeRoleKind::Prefill => "prefill",
        ServeRoleKind::Decode => "decode",
    }
}

/// The roles that a topology has.
pub open spec fn topology_roles(topology: ServeTopology) -> Seq<ServeRoleKind> {
    match topology {
        ServeTopology::Single => seq![ServeRoleKind::Serve],
        ServeTopology::PrefillDecode => seq![ServeRoleKind::Prefill, ServeRoleKind::Decode],
    }
}

/// Whether a topology has a role of the name.
pub open spec fn has_role(topology: ServeTopology, id: Seq<char>) -> bool {
    match topology {
        ServeTopology::Single => id == "serve"@,
        ServeTopology::PrefillDecode => id == "prefill"@ || id == "decode"@,
    }
}

fn is_role(topology: ServeTopology, id: &str) -> (r: bool)
    ensures
        r == has_role(topology, id@),
{
    match topology {
        ServeTopology::Single => same(id, "serve"),
        ServeTopology::PrefillDecode => same(id, "prefill") || same(id, "decode"),
    }
}

/// The name of a topology.
pub open spec fn topology_text(topology: ServeTopology) -> Seq<char> {
    match topology {
        ServeTopology::Single => "Single"@,
        ServeTopology::PrefillDecode => "PrefillDecode"@,
    }
}

/// Which of the roles a topology does not have.
pub open spec fn foreign_role<T>(roles: Dict<T>, topology: ServeTopology) -> spec_fn(int) -> bool {
    |i: int| !has_role(topology, roles.entries@[i].0@)
}

/// The first of the roles that a topology does not have.
pub open spec fn first_foreign<T>(roles: Dict<T>, topology: ServeTopology) -> Option<int> {
    first_index(roles.entries@.len(), foreign_role(roles, topology))
}

fn find_foreign<T>(roles: &Dict<T>, topology: ServeTopology) -> (r: Option<usize>)
    ensures
        match r {
            Some(i) => i < roles.entries@.len() && first_foreign(*roles, topology) == Some(i as int),
            None => first_foreign(*roles, topology) is None,
        },
{
    let ghost p = foreign_role(*roles, topology);
    proof {
        lemma_first_index(roles.entries@.len(), p);
    }
    let mut i: usize = 0;
    while i < roles.entries.len()
        invariant
            i <= roles.entries@.len(),
            p == foreign_role(*roles, topology),
            forall|j: int| 0 <= j < i ==> !(#[trigger] p(j)),
        decreases roles.entries@.len() - i,
    {
        if !is_role(topology, roles.entries[i].0.as_str()) {
            proof {
                assert(p(i as int));
                lemma_first_index_is(roles.entries@.len(), p, i as int);
            }
            return Some(i);
        }
        assert(!p(i as int));
        i += 1;
    }
    None
}

/// Why the declared roles do not fit the topology, if they do not.
pub open spec fn roles_fault(server: ServerDefinition, topology: ServeTopology) -> Option<
    Seq<char>,
> {
    match first_foreign(server.roles, topology) {
        Some(i) => Some(
            "server role "@ + debug_text(server.roles.entries@[i].0@)
                + " is not valid for topology "@ + topology_text(topology)
                + "; roles are canonical"@,
        ),
        None => None,
    }
}

/// The roles of a topology; a server may configure these and no others.
pub fn role_declarations(server: &ServerDefinition, topology: ServeTopology) -> (r: Result<
    Vec<ServeRoleKind>,
    InferlabError,
>)
    ensures
        match roles_fault(*server, topology) {
            Some(text) => refuses(r, text),
            None => r matches Ok(kinds) && kinds@ == topology_roles(topology),
        },
{
    match find_foreign(&server.roles, topology) {
        Some(i) => {
            let name = match topology {
                ServeTopology::Single => "Single",
                ServeTopology::PrefillDecode => "PrefillDecode",
            };
            invalid_config(
                cat5(
                    "server role ",
                    debug(server.roles.entries[i].0.as_str()).as_str(),
                    " is not valid for topology ",
                    name,
                    "; roles are canonical",
                ),
            )
        },
        None => {
            let mut kinds: Vec<ServeRoleKind> = Vec::new();
            match topology {
                ServeTopology::Single => {
                    kinds.push(ServeRoleKind::Serve);
                },
                ServeTopology::PrefillDecode => {
                    kinds.push(ServeRoleKind::Prefill);
                    kinds.push(ServeRoleKind::Decode);
                },
            }
            assert(kinds@ =~= topology_roles(topology));
            Ok(kinds)
        },
    }
}

/// A size that a role declares takes the place of the common one.
pub open spec fn over(base: Option<u32>, change: Option<u32>) -> Option<u32> {
    if change is Some {
        change
    } else {
        base
    }
}

fn either(base: Option<u32>, change: Option<u32>) -> (r: Option<u32>)
    ensures
        r == over(base, change),
{
    if change.is_some() {
        change
    } else {
        base
    }
}

impl Parallelism {
    /// The parallelism with the declared sizes of another in place of its own.
    pub open spec fn merged_with(self, change: Parallelism) -> Parallelism {
        Parallelism {
            outer: match (self.outer, change.outer) {
                (Some(a), Some(b)) => Some(
                    OuterParallelism {
                        tensor_parallel_size: over(a.tensor_parallel_size, b.tensor_parallel_size),
                        pipeline_parallel_size: over(
                            a.pipeline_parallel_size,
                            b.pipeline_parallel_size,
                        ),
                    },
                ),
                (base, None) => base,
                (None, other) => other,
            },
            attention: match (self.attention, change.attention) {
                (Some(a), Some(b)) => Some(
                    AttentionParallelism {
                        tensor_parallel_size: over(a.tensor_parallel_size, b.tensor_parallel_size),
                        data_parallel_size: over(a.data_parallel_size, b.data_parallel_size),
                        context_parallel_size: over(
                            a.context_parallel_size,
                            b.context_parallel_size,
                        ),
                    },
                ),
                (base, None) => base,
                (None, other) => other,
            },
            experts: match (self.experts, change.experts) {
                (Some(a), Some(b)) => Some(
                    ExpertParallelism {
                        tensor_parallel_size: over(a.tensor_parallel_size, b.tensor_parallel_size),
                        data_parallel_size: over(a.data_parallel_size, b.data_parallel_size),
                        expert_parallel_size: over(a.expert_parallel_size, b.expert_parallel_size),
                        dense_tensor_parallel_size: over(
                            a.dense_tensor_parallel_size,
                            b.dense_tensor_parallel_size,
                        ),
                    },
                ),
                (base, None) => base,
                (None, other) => other,
            },
        }
    }

    /// Takes over the declared sizes of another parallelism.
    pub fn merge_from(&mut self, change: &Parallelism)
        ensures
            *final(self) == old(self).merged_with(*change),
    {
        let outer = match (self.outer, change.outer) {
            (Some(a), Some(b)) => Some(
                OuterParallelism {
                    tensor_parallel_size: either(a.tensor_parallel_size, b.tensor_parallel_size),
                    pipeline_parallel_size: either(
                        a.pipeline_parallel_size,
                        b.pipeline_parallel_size,
                    ),
                },
            ),
            (base, None) => base,
            (None, other) => other,
        };
        let attention = match (self.attention, change.attention) {
            (Some(a), Some(b)) => Some(
                AttentionParallelism {
                    tensor_parallel_size: either(a.tensor_parallel_size, b.tensor_parallel_size),
                    data_parallel_size: either(a.data_parallel_size, b.data_parallel_size),
                    context_parallel_size: either(a.context_parallel_size, b.context_parallel_size),
                },
            ),
            (base, None) => base,
            (None, other) => other,
        };
        let experts = match (self.experts, change.experts) {
            (Some(a), Some(b)) => Some(
                ExpertParallelism {
                    tensor_parallel_size: either(a.tensor_parallel_size, b.tensor_parallel_size),
                    data_parallel_size: either(a.data_parallel_size, b.data_parallel_size),
                    expert_parallel_size: either(a.expert_parallel_size, b.expert_parallel_size),
                    dense_tensor_parallel_size: either(
                        a.dense_tensor_parallel_size,
                        b.dense_tensor_parallel_size,
                    ),
                },
            ),
            (base, None) => base,
            (None, other) => other,
        };
        *self = Parallelism { outer, attention, experts };
    }
}

/// The settings of a role: the common ones with its own composed in, or the text
/// of the refusal.
pub open spec fn role_settings(scope: Seq<char>, common: Tree, role: Option<Tree>) -> Result<
    Tree,
    Seq<char>,
> {
    match role {
        None => Ok(common),
        Some(patch) => match merged(common, patch, ""@, false) {
            Ok(tree) => Ok(tree),
            Err(text) => Err("invalid "@ + scope + " settings composition: "@ + text),
        },
    }
}

/// Composes the settings of a role.
pub fn effective_role_settings(scope: &str, common: &TomlValue, role: Option<&TomlValue>) -> (r:
    Result<TomlValue, InferlabError>)
    ensures
        match role_settings(
            scope@,
            common@,
            match role {
                Some(patch) => Some(patch@),
                None => None,
            },
        ) {
            Ok(tree) => r matches Ok(value) && value@ == tree,
            Err(text) => refuses(r, text),
        },
{
    let settings = copy_value(common);
    match role {
        None => Ok(settings),
        Some(patch) => match apply_toml_patch(settings, patch) {
            Ok(value) => Ok(value),
            Err(text) => invalid_config(
                cat4("invalid ", scope, " settings composition: ", text.as_str()),
            ),
        },
    }
}

/// A role as the integration is asked to plan it.
pub struct ResolvedRoleInput {
    pub id: String,
    pub kind: ServeRoleKind,
    pub replica_count: u32,
    pub parallelism: Parallelism,
    pub settings: TomlValue,
}

/// What a role input holds.
pub struct RoleInput {
    pub id: Seq<char>,
    pub kind: ServeRoleKind,
    pub replica_count: u32,
    pub parallelism: Parallelism,
    pub settings: Tree,
}

impl View for ResolvedRoleInput {
    type V = RoleInput;

    open spec fn view(&self) -> RoleInput {
        RoleInput {
            id: self.id@,
            kind: self.kind,
            replica_count: self.replica_count,
            parallelism: self.parallelism,
            settings: self.settings@,
        }
    }
}

/// The input of a role, or the text of the refusal.
pub open spec fn role_input(server: ServerDefinition, kind: ServeRoleKind) -> Result<
    RoleInput,
    Seq<char>,
> {
    let id = kind_text(kind);
    let role = server.roles.at(id);
    match role_settings(
        "effective role "@ + debug_text(id),
        server.settings@,
        match role {
            Some(found) => Some(found.settings@),
            None => None,
        },
    ) {
        Err(text) => Err(text),
        Ok(settings) => {
            let replicas = match role {
                Some(found) => match found.replicas {
                    Some(count) => count,
                    None => 1,
                },
                None => 1,
            };
            if replicas == 0 {
                Err("role "@ + debug_text(id) + " replica count must be nonzero"@)
            } else {
                Ok(
                    RoleInput {
                        id,
                        kind,
                        replica_count: replicas,
                        parallelism: match role {
                            Some(found) => server.parallelism.merged_with(found.parallelism),
                            None => server.parallelism,
                        },
                        settings,
                    },
                )
            }
        },
    }
}

fn resolve_role_input(server: &ServerDefinition, kind: ServeRoleKind) -> (r: Result<
    ResolvedRoleInput,
    InferlabError,
>)
    ensures
        match role_input(*server, kind) {
            Ok(input) => r matches Ok(found) && found@ == input,
            Err(text) => refuses(r, text),
        },
{
    let id = kind_name(kind);
    let scope = cat2("effective role ", debug(id).as_str());
    match server.roles.get(id) {
        None => {
            let settings = match effective_role_settings(scope.as_str(), &server.settings, None) {
                Ok(settings) => settings,
                Err(error) => return Err(error),
            };
            Ok(
                ResolvedRoleInput {
                    id: id.to_owned(),
                    kind,
                    replica_count: 1,
                    parallelism: server.parallelism,
                    settings,
                },
            )
        },
        Some(role) => {
            let mut parallelism = server.parallelism;
            parallelism.merge_from(&role.parallelism);
            let settings = match effective_role_settings(
                scope.as_str(),
                &server.settings,
                Some(&role.settings),
            ) {
                Ok(settings) => settings,
                Err(error) => return Err(error),
            };
            let replica_count: u32 = match role.replicas {
                Some(count) => count,
                None => 1,
            };
            if replica_count == 0 {
                return invalid_config(
                    cat3("role ", debug(id).as_str(), " replica count must be nonzero"),
                );
            }
            Ok(ResolvedRoleInput { id: id.to_owned(), kind, replica_count, parallelism, settings })
        },
    }
}

/// What the list of role inputs holds.
pub open spec fn inputs_of(list: Seq<ResolvedRoleInput>) -> Seq<RoleInput> {
    Seq::new(list.len(), |i: int| list[i]@)
}

/// The inputs of the kinds of roles, or the text of the first refusal.
pub open spec fn role_inputs(server: ServerDefinition, kinds: Seq<ServeRoleKind>) -> Result<
    Seq<RoleInput>,
    Seq<char>,
>
    decreases kinds.len(),
{
    if kinds.len() == 0 {
        Ok(Seq::empty())
    } else {
        match role_inputs(server, kinds.drop_last()) {
            Err(text) => Err(text),
            Ok(list) => match role_input(server, kinds[kinds.len() - 1]) {
                Err(text) => Err(text),
                Ok(input) => Ok(list.push(input)),
            },
        }
    }
}

/// The inputs of the roles of a topology, or the text of the refusal.
pub open spec fn topology_inputs(server: ServerDefinition, topology: ServeTopology) -> Result<
    Seq<RoleInput>,
    Seq<char>,
> {
    match roles_fault(server, topology) {
        Some(text) => Err(text),
        None => role_inputs(server, topology_roles(topology)),
    }
}

/// Resolves the inputs of the roles of a topology.
pub fn resolve_role_inputs(server: &ServerDefinition, topology: ServeTopology) -> (r: Result<
    Vec<ResolvedRoleInput>,
    InferlabError,
>)
    ensures
        match topology_inputs(*server, topology) {
            Err(text) => refuses(r, text),
            Ok(inputs) => r matches Ok(list) && inputs_of(list@) == inputs,
        },
{
    let kinds = match role_declarations(server, topology) {
        Ok(kinds) => kinds,
        Err(error) => return Err(error),
    };
    let mut out: Vec<ResolvedRoleInput> = Vec::new();
    let mut i: usize = 0;
    assert(kinds@.take(0) =~= Seq::<ServeRoleKind>::empty());
    assert(inputs_of(out@) =~= Seq::<RoleInput>::empty());
    while i < kinds.len()
        invariant
            i <= kinds@.len(),
            kinds@ == topology_roles(topology),
            roles_fault(*server, topology) is None,
            role_inputs(*server, kinds@.take(i as int)) == Ok::<Seq<RoleInput>, Seq<char>>(
                inputs_of(out@),
            ),
        decreases kinds@.len() - i,
    {
        let ghost before = inputs_of(out@);
        proof {
            assert(kinds@.take(i + 1).drop_last() =~= kinds@.take(i as int));
            assert(kinds@.take(i + 1)[i as int] == kinds@[i as int]);
        }
        match resolve_role_input(server, kinds[i]) {
            Ok(input) => {
                let ghost added = input@;
                out.push(input);
                assert(inputs_of(out@) =~= before.push(added));
            },
            Err(error) => {
                proof {
                    lemma_inputs_fail(*server, kinds@, i + 1);
                }
                return Err(error);
            },
        }
        i += 1;
    }
    assert(kinds@.take(kinds@.len() as int) =~= kinds@);
    Ok(out)
}

/// The refusal of the first roles is the refusal of all of them.
proof fn lemma_inputs_fail(server: ServerDefinition, kinds: Seq<ServeRoleKind>, i: int)
    requires
        0 <= i <= kinds.len(),
        role_inputs(server, kinds.take(i)) is Err,
    ensures
        role_inputs(server, kinds) == role_inputs(server, kinds.take(i)),
    decreases kinds.len(),
{
    if i == kinds.len() {
        assert(kinds.take(i) =~= kinds);
    } else {
        assert(kinds.drop_last().take(i) =~= kinds.take(i));
        lemma_inputs_fail(server, kinds.drop_last(), i);
    }
}

// ---------------------------------------------------------------------------
// Invocation overrides

/// What one invocation override changes of the server.
pub struct ServerOverridePatch {
    pub topology: Option<ServeTopology>,
    pub change: ServerCaseDefinition,
}

/// An override of the server, with the place of its declaration.
pub struct IndexedServerOverride<'p> {
    pub invocation: InvocationOverride,
    pub assignment: ExactTomlOverride,
    pub patch: &'p ServerOverridePatch,
}

/// Why an override is not accepted: as a configuration, or as an override.
pub enum OverrideFault {
    Config { text: Seq<char> },
    Override { raw: Seq<char>, text: Seq<char> },
}

/// Whether the result is the refusal for the fault.
pub open spec fn refuses_for<T>(r: Result<T, InferlabError>, fault: OverrideFault) -> bool {
    match fault {
        OverrideFault::Config { text } => refuses(r, text),
        OverrideFault::Override { raw, text } => refuses_override(r, raw, text),
    }
}

/// Whether an override is for a measurement of the recipe and not for the server.
pub open spec fn for_measurement(workflow: Workflow, path: Seq<char>) -> bool {
    !starts(path, "server."@) && workflow is RecipeRun && (starts(path, "evals."@) || starts(
        path,
        "benches."@,
    ))
}

/// Why a patch may not change the server, if it may not.
pub open spec fn patch_fault(
    server: ServerDefinition,
    server_id: Seq<char>,
    patch: ServerOverridePatch,
) -> Option<Seq<char>> {
    if patch.topology is Some {
        Some("invocation overrides must not change server topology"@)
    } else if patch.change.gateway_backend is Some && server.gateway_backend is None {
        Some(
            "cannot add gateway_backend because server "@ + debug_text(server_id)
                + " does not declare a Gateway"@,
        )
    } else if patch.change.pd_router_backend is Some && server.pd_router_backend is None {
        Some(
            "cannot add pd_router_backend because server "@ + debug_text(server_id)
                + " does not declare a P/D Router"@,
        )
    } else if patch.change.readiness_timeout_seconds == Some(0u64) {
        Some("readiness_timeout_seconds must be nonzero"@)
    } else if patch.change.readiness_attempt_timeout_seconds == Some(0u64) {
        Some("readiness_attempt_timeout_seconds must be nonzero"@)
    } else if patch.change.capture_arm_deadline_seconds == Some(0u64) {
        Some("capture_arm_deadline_seconds must be nonzero"@)
    } else if patch.change.capture_control_deadline_seconds == Some(0u64) {
        Some("capture_control_deadline_seconds must be nonzero"@)
    } else if patch.change.capture_finalization_deadline_seconds == Some(0u64) {
        Some("capture_finalization_deadline_seconds must be nonzero"@)
    } else {
        match first_foreign(patch.change.roles, server.topology) {
            Some(i) => Some(
                "invocation configures role "@ + debug_text(patch.change.roles.entries@[i].0@)
                    + ", which is not part of the selected topology"@,
            ),
            None => None,
        }
    }
}

fn is_zero(seconds: Option<u64>) -> (r: bool)
    ensures
        r == (seconds == Some(0u64)),
{
    match seconds {
        Some(n) => n == 0,
        None => false,
    }
}

/// Checks that a patch may change the server.
pub fn check_server_patch(server: &ServerDefinition, server_id: &str, patch: &ServerOverridePatch) -> (r:
    Result<(), InferlabError>)
    ensures
        match patch_fault(*server, server_id@, *patch) {
            Some(text) => refuses(r, text),
            None => r is Ok,
        },
{
    if patch.topology.is_some() {
        return invalid_config("invocation overrides must not change server topology".to_owned());
    }
    if patch.change.gateway_backend.is_some() && server.gateway_backend.is_none() {
        return invalid_config(
            cat3(
                "cannot add gateway_backend because server ",
                debug(server_id).as_str(),
                " does not declare a Gateway",
            ),
        );
    }
    if patch.change.pd_router_backend.is_some() && server.pd_router_backend.is_none() {
        return invalid_config(
            cat3(
                "cannot add pd_router_backend because server ",
                debug(server_id).as_str(),
                " does not declare a P/D Router",
            ),
        );
    }
    if is_zero(patch.change.readiness_timeout_seconds) {
        return invalid_config("readiness_timeout_seconds must be nonzero".to_owned());
    }
    if is_zero(patch.change.readiness_attempt_timeout_seconds) {
        return invalid_config("readiness_attempt_timeout_seconds must be nonzero".to_owned());
    }
    if is_zero(patch.change.capture_arm_deadline_seconds) {
        return invalid_config("capture_arm_deadline_seconds must be nonzero".to_owned());
    }
    if is_zero(patch.change.capture_control_deadline_seconds) {
        return invalid_config("capture_control_deadline_seconds must be nonzero".to_owned());
    }
    if is_zero(patch.change.capture_finalization_deadline_seconds) {
        return invalid_config("capture_finalization_deadline_seconds must be nonzero".to_owned());
    }
    match find_foreign(&patch.change.roles, server.topology) {
        Some(i) => invalid_config(
            cat3(
                "invocation configures role ",
                debug(patch.change.roles.entries[i].0.as_str()).as_str(),
                ", which is not part of the selected topology",
            ),
        ),
        None => Ok(()),
    }
}

/// The assignment that an override makes below the given path.
pub open spec fn item_assignment(item: InvocationOverride, path: Seq<char>) -> Result<
    (Seq<char>, Tree),
    Seq<char>,
> {
    assignment_of(
        path,
        toml_parsed("value = "@ + item.raw_value@),
        toml_parsed(path + " = 0"@),
        toml_parsed(path + " = "@ + item.raw_value@),
    )
}

/// Why an override of the server is not accepted, if it is not. `parsed` is the
/// patch that its assignment was read as.
pub open spec fn item_fault(
    server: ServerDefinition,
    server_id: Seq<char>,
    item: InvocationOverride,
    parsed: Result<ServerOverridePatch, String>,
) -> Option<OverrideFault> {
    match after_prefix(item.path@, "server."@) {
        None => Some(
            OverrideFault::Override {
                raw: item.raw@,
                text: "only paths under server. may be overridden"@,
            },
        ),
        Some(path) => match item_assignment(item, path) {
            Err(text) => Some(OverrideFault::Override { raw: item.raw@, text }),
            Ok(_) => match parsed {
                Err(text) => Some(
                    OverrideFault::Override {
                        raw: item.raw@,
                        text: "invalid server setting: "@ + text@,
                    },
                ),
                Ok(patch) => match patch_fault(server, server_id, patch) {
                    Some(text) => Some(OverrideFault::Config { text }),
                    None => None,
                },
            },
        },
    }
}

/// The faults of the overrides, by place.
pub open spec fn override_faults(
    server: ServerDefinition,
    server_id: Seq<char>,
    workflow: Workflow,
    overrides: Seq<InvocationOverride>,
    parsed: Seq<Result<ServerOverridePatch, String>>,
) -> spec_fn(int) -> Option<OverrideFault> {
    |i: int|
        if for_measurement(workflow, overrides[i].path@) {
            None
        } else {
            item_fault(server, server_id, overrides[i], parsed[i])
        }
}

/// The places of the overrides that change the server.
pub open spec fn server_places(workflow: Workflow, overrides: Seq<InvocationOverride>) -> Seq<int>
    decreases overrides.len(),
{
    if overrides.len() == 0 {
        Seq::empty()
    } else {
        let rest = server_places(workflow, overrides.drop_last());
        if for_measurement(workflow, overrides[overrides.len() - 1].path@) {
            rest
        } else {
            rest.push(overrides.len() - 1)
        }
    }
}

/// Whether an accepted override is what was declared.
pub open spec fn accepts(
    found: IndexedServerOverride,
    item: InvocationOverride,
    parsed: Result<ServerOverridePatch, String>,
) -> bool {
    &&& found.invocation.index == item.index
    &&& found.invocation.raw == item.raw
    &&& found.invocation.raw_value == item.raw_value
    &&& after_prefix(item.path@, "server."@) == Some(found.invocation.path@)
    &&& item_assignment(item, found.invocation.path@) == Ok::<(Seq<char>, Tree), Seq<char>>(
        (found.assignment.root_key@, found.assignment.patch@),
    )
    &&& parsed == Ok::<ServerOverridePatch, String>(*found.patch)
}

/// Takes one override of the server.
pub fn server_override<'p>(
    server: &ServerDefinition,
    server_id: &str,
    item: &InvocationOverride,
    parsed: &'p Result<ServerOverridePatch, String>,
) -> (r: Result<IndexedServerOverride<'p>, InferlabError>)
    ensures
        match item_fault(*server, server_id@, *item, *parsed) {
            Some(fault) => refuses_for(r, fault),
            None => r matches Ok(found) && accepts(found, *item, *parsed),
        },
{
    let invocation = match item.under("server.") {
        Some(invocation) => invocation,
        None => return Err(
            InferlabError::InvalidOverride {
                value: item.raw.clone(),
                message: "only paths under server. may be overridden".to_owned(),
            },
        ),
    };
    let assignment = match invocation.assignment() {
        Ok(assignment) => assignment,
        Err(error) => return Err(error),
    };
    match parsed {
        Err(text) => Err(
            InferlabError::InvalidOverride {
                value: item.raw.clone(),
                message: cat2("invalid server setting: ", text.as_str()),
            },
        ),
        Ok(patch) => match check_server_patch(server, server_id, patch) {
            Err(error) => Err(error),
            Ok(_) => Ok(IndexedServerOverride { invocation, assignment, patch }),
        },
    }
}

/// Takes the overrides of an invocation that change the server, in order. The
/// patch of each is the reading of its assignment.
pub fn server_overrides<'p>(
    server: &ServerDefinition,
    server_id: &str,
    workflow: Workflow,
    overrides: &[InvocationOverride],
    parsed: &'p [Result<ServerOverridePatch, String>],
) -> (r: Result<Vec<IndexedServerOverride<'p>>, InferlabError>)
    requires
        parsed@.len() == overrides@.len(),
    ensures
        match roles_fault(*server, server.topology) {
            Some(text) => refuses(r, text),
            None => match first_some(
                overrides@.len(),
                override_faults(*server, server_id@, workflow, overrides@, parsed@),
            ) {
                Some(fault) => refuses_for(r, fault),
                None => r matches Ok(list) && {
                    let places = server_places(workflow, overrides@);
                    &&& list@.len() == places.len()
                    &&& forall|k: int|
                        0 <= k < list@.len() ==> accepts(
                            #[trigger] list@[k],
                            overrides@[places[k]],
                            parsed@[places[k]],
                        )
                },
            },
        },
{
    if let Err(error) = role_declarations(server, server.topology) {
        return Err(error);
    }
    let ghost f = override_faults(*server, server_id@, workflow, overrides@, parsed@);
    let mut out: Vec<IndexedServerOverride<'p>> = Vec::new();
    let mut i: usize = 0;
    assert(overrides@.take(0) =~= Seq::<InvocationOverride>::empty());
    while i < overrides.len()
        invariant
            i <= overrides@.len(),
            parsed@.len() == overrides@.len(),
            roles_fault(*server, server.topology) is None,
            f == override_faults(*server, server_id@, workflow, overrides@, parsed@),
            first_some(i as nat, f) is None,
            out@.len() == server_places(workflow, overrides@.take(i as int)).len(),
            forall|k: int|
                0 <= k < out@.len() ==> accepts(
                    #[trigger] out@[k],
                    overrides@[server_places(workflow, overrides@.take(i as int))[k]],
                    parsed@[server_places(workflow, overrides@.take(i as int))[k]],
                ),
        decreases overrides@.len() - i,
    {
        let item = &overrides[i];
        let ghost places = server_places(workflow, overrides@.take(i as int));
        proof {
            assert(overrides@.take(i + 1).drop_last() =~= overrides@.take(i as int));
            assert(overrides@.take(i + 1)[i as int] == *item);
        }
        let path = item.path.as_str();
        let skipped = !starts_with(path, "server.") && workflow == Workflow::RecipeRun && (
        starts_with(path, "evals.") || starts_with(path, "benches."));
        if !skipped {
            assert(f(i as int) == item_fault(*server, server_id@, *item, parsed@[i as int]));
            match server_override(server, server_id, item, &parsed[i]) {
                Ok(found) => {
                    out.push(found);
                    assert(server_places(workflow, overrides@.take(i + 1)) == places.push(
                        i as int,
                    ));
                },
                Err(error) => {
                    proof {
                        lemma_first_some_stays((i + 1) as nat, overrides@.len(), f);
                    }
                    return Err(error);
                },
            }
        } else {
            assert(f(i as int) is None);
            assert(server_places(workflow, overrides@.take(i + 1)) == places);
        }
        i += 1;
    }
    assert(overrides@.take(overrides@.len() as int) =~= overrides@);
    Ok(out)
}

// ---------------------------------------------------------------------------
// Composition

/// The definition once the first overrides have been applied, or the fault.
pub open spec fn overridden(base: Tree, overrides: Seq<IndexedServerOverride>) -> Result<
    Tree,
    OverrideFault,
>
    decreases overrides.len(),
{
    if overrides.len() == 0 {
        Ok(base)
    } else {
        match overridden(base, overrides.drop_last()) {
            Err(fault) => Err(fault),
            Ok(before) => {
                let last = overrides[overrides.len() - 1];
                match merged(before, last.assignment.patch@, ""@, false) {
                    Ok(tree) => Ok(tree),
                    Err(text) => Err(
                        OverrideFault::Override { raw: last.invocation.raw@, text },
                    ),
                }
            },
        }
    }
}

/// The effective definition of a server: its case composed in, then the
/// overrides in order.
pub open spec fn composed_server(
    server: Tree,
    case: Option<Tree>,
    overrides: Seq<IndexedServerOverride>,
) -> Result<Tree, OverrideFault> {
    match case {
        None => overridden(server, overrides),
        Some(patch) => match merged(server, patch, ""@, false) {
            Err(text) => Err(
                OverrideFault::Config {
                    text: "invalid selected server case composition: "@ + text,
                },
            ),
            Ok(base) => overridden(base, overrides),
        },
    }
}

/// Faults of the first overrides are the faults of all of them.
proof fn lemma_overridden_fails(base: Tree, overrides: Seq<IndexedServerOverride>, i: int)
    requires
        0 <= i <= overrides.len(),
        overridden(base, overrides.take(i)) is Err,
    ensures
        overridden(base, overrides) == overridden(base, overrides.take(i)),
    decreases overrides.len(),
{
    if i == overrides.len() {
        assert(overrides.take(i) =~= overrides);
    } else {
        assert(overrides.drop_last().take(i) =~= overrides.take(i));
        lemma_overridden_fails(base, overrides.drop_last(), i);
    }
}

/// Composes the effective definition of a server.
pub fn compose_server_definition(
    server: TomlValue,
    case: Option<&TomlValue>,
    overrides: &[IndexedServerOverride],
) -> (r: Result<TomlValue, InferlabError>)
    ensures
        match composed_server(
            server@,
            match case {
                Some(patch) => Some(patch@),
                None => None,
            },
            overrides@,
        ) {
            Ok(tree) => r matches Ok(value) && value@ == tree,
            Err(fault) => refuses_for(r, fault),
        },
{
    let mut definition = match case {
        None => server,
        Some(patch) => match apply_toml_patch(server, patch) {
            Ok(value) => value,
            Err(text) => return invalid_config(
                cat2("invalid selected server case composition: ", text.as_str()),
            ),
        },
    };
    let ghost base = definition@;
    let mut i: usize = 0;
    assert(overrides@.take(0) =~= Seq::<IndexedServerOverride>::empty());
    while i < overrides.len()
        invariant
            i <= overrides@.len(),
            overridden(base, overrides@.take(i as int)) == Ok::<Tree, OverrideFault>(definition@),
            composed_server(
                server@,
                match case {
                    Some(patch) => Some(patch@),
                    None => None,
                },
                overrides@,
            ) == overridden(base, overrides@),
        decreases overrides@.len() - i,
    {
        proof {
            assert(overrides@.take(i + 1).drop_last() =~= overrides@.take(i as int));
            assert(overrides@.take(i + 1)[i as int] == overrides@[i as int]);
        }
        match apply_toml_patch(definition, &overrides[i].assignment.patch) {
            Ok(value) => {
                definition = value;
            },
            Err(text) => {
                proof {
                    lemma_overridden_fails(base, overrides@, i + 1);
                }
                return Err(
                    InferlabError::InvalidOverride {
                        value: overrides[i].invocation.raw.clone(),
                        message: text,
                    },
                );
            },
        }
        i += 1;
    }
    assert(overrides@.take(overrides@.len() as int) =~= overrides@);
    Ok(definition)
}

// ---------------------------------------------------------------------------
// Declarations

/// Where a declaration stands.
#[derive(Clone, Copy)]
pub enum DeclarationSource<'a> {
    Server { id: &'a str },
    Case { id: &'a str },
    Invocation { index: usize },
}

/// What a declaration says of the whole server.
pub struct CommonDeclarationPlan<'a> {
    pub readiness_timeout_seconds: Option<u64>,
    pub readiness_attempt_timeout_seconds: Option<u64>,
    pub capture_arm_deadline_seconds: Option<u64>,
    pub gateway_backend: &'a Option<String>,
    pub pd_router_backend: &'a Option<String>,
    pub kv_transfer: Option<KvTransferMechanism>,
    pub profiling: Option<bool>,
    pub capture_control_deadline_seconds: Option<u64>,
    pub capture_finalization_deadline_seconds: Option<u64>,
    pub parallelism: Parallelism,
    pub settings: &'a TomlValue,
}

/// A declaration, as the record of the execution keeps it.
pub struct ServerDeclarationPlan<'a> {
    pub source: DeclarationSource<'a>,
    pub common: CommonDeclarationPlan<'a>,
    pub roles: &'a Dict<ServerRoleDefinition>,
}

/// The declaration of a change.
pub open spec fn change_declaration<'a>(
    source: DeclarationSource<'a>,
    change: &'a ServerCaseDefinition,
) -> ServerDeclarationPlan<'a> {
    ServerDeclarationPlan {
        source,
        common: CommonDeclarationPlan {
            readiness_timeout_seconds: change.readiness_timeout_seconds,
            readiness_attempt_timeout_seconds: change.readiness_attempt_timeout_seconds,
            capture_arm_deadline_seconds: change.capture_arm_deadline_seconds,
            gateway_backend: &change.gateway_backend,
            pd_router_backend: &change.pd_router_backend,
            kv_transfer: change.kv_transfer,
            profiling: change.profiling,
            capture_control_deadline_seconds: change.capture_control_deadline_seconds,
            capture_finalization_deadline_seconds: change.capture_finalization_deadline_seconds,
            parallelism: change.parallelism,
            settings: &change.settings,
        },
        roles: &change.roles,
    }
}

/// The declaration of the server itself.
pub open spec fn server_declaration<'a>(id: &'a str, server: &'a ServerDefinition) -> ServerDeclarationPlan<
    'a,
> {
    ServerDeclarationPlan {
        source: DeclarationSource::Server { id },
        common: CommonDeclarationPlan {
            readiness_timeout_seconds: Some(server.readiness_timeout_seconds),
            readiness_attempt_timeout_seconds: server.readiness_attempt_timeout_seconds,
            capture_arm_deadline_seconds: server.capture_arm_deadline_seconds,
            gateway_backend: &server.gateway_backend,
            pd_router_backend: &server.pd_router_backend,
            kv_transfer: server.kv_transfer,
            profiling: server.profiling,
            capture_control_deadline_seconds: server.capture_control_deadline_seconds,
            capture_finalization_deadline_seconds: server.capture_finalization_deadline_seconds,
            parallelism: server.parallelism,
            settings: &server.settings,
        },
        roles: &server.roles,
    }
}

fn declare_change<'a>(source: DeclarationSource<'a>, change: &'a ServerCaseDefinition) -> (r:
    ServerDeclarationPlan<'a>)
    ensures
        r == change_declaration(source, change),
{
    ServerDeclarationPlan {
        source,
        common: CommonDeclarationPlan {
            readiness_timeout_seconds: change.readiness_timeout_seconds,
            readiness_attempt_timeout_seconds: change.readiness_attempt_timeout_seconds,
            capture_arm_deadline_seconds: change.capture_arm_deadline_seconds,
            gateway_backend: &change.gateway_backend,
            pd_router_backend: &change.pd_router_backend,
            kv_transfer: change.kv_transfer,
            profiling: change.profiling,
            capture_control_deadline_seconds: change.capture_control_deadline_seconds,
            capture_finalization_deadline_seconds: change.capture_finalization_deadline_seconds,
            parallelism: change.parallelism,
            settings: &change.settings,
        },
        roles: &change.roles,
    }
}

/// Whether the declarations are the server's, the selected case's and those of the
/// invocation, in the order in which they apply.
pub open spec fn declared_in_order<'a>(
    r: Seq<ServerDeclarationPlan<'a>>,
    server_id: &'a str,
    server: &'a ServerDefinition,
    case: Option<(&'a str, &'a ServerCaseDefinition)>,
    overrides: Seq<IndexedServerOverride<'a>>,
) -> bool {
    &&& r.len() == 1 + (if case is Some {
        1int
    } else {
        0int
    }) + overrides.len()
    &&& r[0] == server_declaration(server_id, server)
    &&& case matches Some((id, definition)) ==> r[1] == change_declaration(
        DeclarationSource::Case { id },
        definition,
    )
    &&& forall|i: int|
        0 <= i < overrides.len() ==> r[r.len() - overrides.len() + i] == change_declaration(
            DeclarationSource::Invocation { index: (#[trigger] overrides[i]).invocation.index },
            &overrides[i].patch.change,
        )
}

/// The declarations behind an effective server: the server's, the selected
/// case's and those of the invocation, in the order in which they apply.
pub fn server_declarations<'a>(
    server_id: &'a str,
    server: &'a ServerDefinition,
    case: Option<(&'a str, &'a ServerCaseDefinition)>,
    overrides: &'a [IndexedServerOverride<'a>],
) -> (r: Vec<ServerDeclarationPlan<'a>>)
    ensures
        declared_in_order(r@, server_id, server, case, overrides@),
{
    let mut out: Vec<ServerDeclarationPlan<'a>> = Vec::new();
    out.push(
        ServerDeclarationPlan {
            source: DeclarationSource::Server { id: server_id },
            common: CommonDeclarationPlan {
                readiness_timeout_seconds: Some(server.readiness_timeout_seconds),
                readiness_attempt_timeout_seconds: server.readiness_attempt_timeout_seconds,
                capture_arm_deadline_seconds: server.capture_arm_deadline_seconds,
                gateway_backend: &server.gateway_backend,
                pd_router_backend: &server.pd_router_backend,
                kv_transfer: server.kv_transfer,
                profiling: server.profiling,
                capture_control_deadline_seconds: server.capture_control_deadline_seconds,
                capture_finalization_deadline_seconds: server.capture_finalization_deadline_seconds,
                parallelism: server.parallelism,
                settings: &server.settings,
            },
            roles: &server.roles,
        },
    );
    if let Some((id, definition)) = case {
        out.push(declare_change(DeclarationSource::Case { id }, definition));
    }
    let ghost head = out@;
    let mut i: usize = 0;
    while i < overrides.len()
        invariant
            i <= overrides@.len(),
            out@.len() == head.len() + i,
            head.len() >= 1,
            forall|j: int| 0 <= j < head.len() ==> out@[j] == #[trigger] head[j],
            forall|j: int|
                0 <= j < i ==> out@[head.len() + j] == change_declaration(
                    DeclarationSource::Invocation {
                        index: (#[trigger] overrides@[j]).invocation.index,
                    },
                    &overrides@[j].patch.change,
                ),
        decreases overrides@.len() - i,
    {
        let item = &overrides[i];
        out.push(
            declare_change(
                DeclarationSource::Invocation { index: item.invocation.index },
                &item.patch.change,
            ),
        );
        i += 1;
    }
    assert(out@[0] == head[0]);
    if case.is_some() {
        assert(out@[1] == head[1]);
    }
    out
}

// ---------------------------------------------------------------------------
// The effective input

/// The values that apply where nothing is declared.
pub struct ServerDefaults {
    pub readiness_attempt_timeout_seconds: u64,
    pub capture_arm_deadline_seconds: u64,
    pub capture_control_deadline_seconds: u64,
    pub capture_finalization_deadline_seconds: u64,
}

/// The effective input after case and invocation precedence.
pub struct EffectiveServerInput {
    pub topology: ServeTopology,
    pub readiness_timeout_seconds: u64,
    pub readiness_attempt_timeout_seconds: u64,
    pub gateway_backend: Option<String>,
    pub pd_router_backend: Option<String>,
    pub kv_transfer: Option<KvTransferMechanism>,
    pub profiling: bool,
    pub capture_arm_deadline_seconds: u64,
    pub capture_control_deadline_seconds: u64,
    pub capture_finalization_deadline_seconds: u64,
    pub role_inputs: Vec<ResolvedRoleInput>,
}

/// The declared value, or the default.
pub open spec fn or_default(declared: Option<u64>, default: u64) -> u64 {
    match declared {
        Some(value) => value,
        None => default,
    }
}

fn declared_or(declared: Option<u64>, default: u64) -> (r: u64)
    ensures
        r == or_default(declared, default),
{
    match declared {
        Some(value) => value,
        None => default,
    }
}

/// Why the effective definition does not fit the topology, if it does not.
pub open spec fn topology_fault(topology: ServeTopology, effective: ServerDefinition) -> Option<
    Seq<char>,
> {
    match topology {
        ServeTopology::Single => if effective.pd_router_backend is Some || effective.kv_transfer is Some {
            Some("single topology does not accept pd_router_backend or kv_transfer"@)
        } else {
            None
        },
        ServeTopology::PrefillDecode => if effective.gateway_backend is None
            || effective.pd_router_backend is None {
            Some("prefill_decode topology requires both gateway_backend and pd_router_backend"@)
        } else {
            None
        },
    }
}

/// Whether an input is that of an effective definition: what is declared, and the
/// default where nothing is.
pub open spec fn input_of(
    input: EffectiveServerInput,
    topology: ServeTopology,
    effective: ServerDefinition,
    defaults: ServerDefaults,
    captures_requested: bool,
) -> bool {
    &&& input.topology == topology
    &&& input.readiness_timeout_seconds == effective.readiness_timeout_seconds
    &&& input.readiness_attempt_timeout_seconds == or_default(
        effective.readiness_attempt_timeout_seconds,
        defaults.readiness_attempt_timeout_seconds,
    )
    &&& input.gateway_backend == effective.gateway_backend
    &&& input.pd_router_backend == effective.pd_router_backend
    &&& input.kv_transfer == effective.kv_transfer
    &&& input.profiling == (captures_requested || effective.profiling == Some(true))
    &&& input.capture_arm_deadline_seconds == or_default(
        effective.capture_arm_deadline_seconds,
        defaults.capture_arm_deadline_seconds,
    )
    &&& input.capture_control_deadline_seconds == or_default(
        effective.capture_control_deadline_seconds,
        defaults.capture_control_deadline_seconds,
    )
    &&& input.capture_finalization_deadline_seconds == or_default(
        effective.capture_finalization_deadline_seconds,
        defaults.capture_finalization_deadline_seconds,
    )
}

/// Resolves the effective input of a server from its effective definition.
/// Asking for captures turns profiling on.
pub fn resolve_effective_server_input(
    topology: ServeTopology,
    effective: &ServerDefinition,
    defaults: &ServerDefaults,
    captures_requested: bool,
) -> (r: Result<EffectiveServerInput, InferlabError>)
    ensures
        match topology_fault(topology, *effective) {
            Some(text) => refuses(r, text),
            None => match topology_inputs(*effective, topology) {
                Err(text) => refuses(r, text),
                Ok(inputs) => r matches Ok(input) && input_of(
                    input,
                    topology,
                    *effective,
                    *defaults,
                    captures_requested,
                ) && inputs_of(input.role_inputs@) == inputs,
            },
        },
{
    match topology {
        ServeTopology::Single => if effective.pd_router_backend.is_some()
            || effective.kv_transfer.is_some() {
            return invalid_config(
                "single topology does not accept pd_router_backend or kv_transfer".to_owned(),
            );
        },
        ServeTopology::PrefillDecode => if effective.gateway_backend.is_none()
            || effective.pd_router_backend.is_none() {
            return invalid_config(
                "prefill_decode topology requires both gateway_backend and pd_router_backend".to_owned(),
            );
        },
    }
    let role_inputs = match resolve_role_inputs(effective, topology) {
        Ok(inputs) => inputs,
        Err(error) => return Err(error),
    };
    let declared = match effective.profiling {
        Some(flag) => flag,
        None => false,
    };
    let gateway_backend = match &effective.gateway_backend {
        Some(backend) => Some(backend.clone()),
        None => None,
    };
    let pd_router_backend = match &effective.pd_router_backend {
        Some(backend) => Some(backend.clone()),
        None => None,
    };
    Ok(
        EffectiveServerInput {
            topology,
            readiness_timeout_seconds: effective.readiness_timeout_seconds,
            readiness_attempt_timeout_seconds: declared_or(
                effective.readiness_attempt_timeout_seconds,
                defaults.readiness_attempt_timeout_seconds,
            ),
            gateway_backend,
            pd_router_backend,
            kv_transfer: effective.kv_transfer,
            profiling: captures_requested || declared,
            capture_arm_deadline_seconds: declared_or(
                effective.capture_arm_deadline_seconds,
                defaults.capture_arm_deadline_seconds,
            ),
            capture_control_deadline_seconds: declared_or(
                effective.capture_control_deadline_seconds,
                defaults.capture_control_deadline_seconds,
            ),
            capture_finalization_deadline_seconds: declared_or(
                effective.capture_finalization_deadline_seconds,
                defaults.capture_finalization_deadline_seconds,
            ),
            role_inputs,
        },
    )
}

/// A later override of a value wins over an earlier one on the same key: after
/// both, the value of the later one is read.
pub proof fn law_last_override_wins(
    base: Tree,
    overrides: Seq<IndexedServerOverride>,
    key: Seq<char>,
    value: Tree,
)
    requires
        overrides.len() > 0,
        overridden(base, overrides) is Ok,
        overrides[overrides.len() - 1].assignment.patch@ == Tree::Table(seq![(key, value)]),
        !(value is Table),
    ensures
        overridden(base, overrides)->Ok_0 is Table,
        crate::toml_value::entry_at(overridden(base, overrides)->Ok_0->Table_0, key) == Some(value),
{
    let before = overridden(base, overrides.drop_last())->Ok_0;
    assert(before is Table);
    crate::toml_override::law_assigned_value_is_read_back(
        before->Table_0,
        key,
        value,
        ""@,
        false,
    );
}

/// A size that a role declares is the size of its input, and a size that it leaves
/// undeclared is the server's, for each size of the outer parallelism.
pub proof fn law_declared_outer_size_is_kept(server: ServerDefinition, kind: ServeRoleKind)
    requires
        role_input(server, kind) is Ok,
    ensures
        ({
            let given = role_input(server, kind)->Ok_0.parallelism.outer;
            let common = server.parallelism.outer;
            match server.roles.at(kind_text(kind)) {
                None => given == common,
                Some(role) => match role.parallelism.outer {
                    None => given == common,
                    Some(own) => given matches Some(size) && {
                        &&& own.tensor_parallel_size is Some ==> size.tensor_parallel_size
                            == own.tensor_parallel_size
                        &&& own.pipeline_parallel_size is Some ==> size.pipeline_parallel_size
                            == own.pipeline_parallel_size
                        &&& own.tensor_parallel_size is None ==> size.tensor_parallel_size == (
                        if common is Some {
                            common->0.tensor_parallel_size
                        } else {
                            None
                        })
                        &&& own.pipeline_parallel_size is None ==> size.pipeline_parallel_size == (
                        if common is Some {
                            common->0.pipeline_parallel_size
                        } else {
                            None
                        })
                    },
                },
            }
        }),
{
}

/// A size that a role declares is the size of its input, and a size that it leaves
/// undeclared is the server's, for each size of the attention.
pub proof fn law_declared_attention_size_is_kept(server: ServerDefinition, kind: ServeRoleKind)
    requires
        role_input(server, kind) is Ok,
    ensures
        ({
            let given = role_input(server, kind)->Ok_0.parallelism.attention;
            let common = server.parallelism.attention;
            match server.roles.at(kind_text(kind)) {
                None => given == common,
                Some(role) => match role.parallelism.attention {
                    None => given == common,
                    Some(own) => given matches Some(size) && {
                        &&& own.tensor_parallel_size is Some ==> size.tensor_parallel_size
                            == own.tensor_parallel_size
                        &&& own.data_parallel_size is Some ==> size.data_parallel_size
                            == own.data_parallel_size
                        &&& own.context_parallel_size is Some ==> size.context_parallel_size
                            == own.context_parallel_size
                        &&& own.tensor_parallel_size is None ==> size.tensor_parallel_size == (
                        if common is Some {
                            common->0.tensor_parallel_size
                        } else {
                            None
                        })
                        &&& own.data_parallel_size is None ==> size.data_parallel_size == (
                        if common is Some {
                            common->0.data_parallel_size
                        } else {
                            None
                        })
                        &&& own.context_parallel_size is None ==> size.context_parallel_size == (
                        if common is Some {
                            common->0.context_parallel_size
                        } else {
                            None
                        })
                    },
                },
            }
        }),
{
}

/// A size that a role declares is the size of its input, and a size that it leaves
/// undeclared is the server's, for each size of the experts.
pub proof fn law_declared_expert_size_is_kept(server: ServerDefinition, kind: ServeRoleKind)
    requires
        role_input(server, kind) is Ok,
    ensures
        ({
            let given = role_input(server, kind)->Ok_0.parallelism.experts;
            let common = server.parallelism.experts;
            match server.roles.at(kind_text(kind)) {
                None => given == common,
                Some(role) => match role.parallelism.experts {
                    None => given == common,
                    Some(own) => given matches Some(size) && {
                        &&& own.tensor_parallel_size is Some ==> size.tensor_parallel_size
                            == own.tensor_parallel_size
                        &&& own.data_parallel_size is Some ==> size.data_parallel_size
                            == own.data_parallel_size
                        &&& own.expert_parallel_size is Some ==> size.expert_parallel_size
                            == own.expert_parallel_size
                        &&& own.dense_tensor_parallel_size is Some
                            ==> size.dense_tensor_parallel_size == own.dense_tensor_parallel_size
                        &&& own.tensor_parallel_size is None ==> size.tensor_parallel_size == (
                        if common is Some {
                            common->0.tensor_parallel_size
                        } else {
                            None
                        })
                        &&& own.data_parallel_size is None ==> size.data_parallel_size == (
                        if common is Some {
                            common->0.data_parallel_size
                        } else {
                            None
                        })
                        &&& own.expert_parallel_size is None ==> size.expert_parallel_size == (
                        if common is Some {
                            common->0.expert_parallel_size
                        } else {
                            None
                        })
                        &&& own.dense_tensor_parallel_size is None
                            ==> size.dense_tensor_parallel_size == (if common is Some {
                            common->0.dense_tensor_parallel_size
                        } else {
                            None
                        })
                    },
                },
            }
        }),
{
}

/// The inputs of a topology are those of its roles, in their order: a single server
/// has the one that serves, a split one that which prefills and that which decodes.
/// Each has the number of replicas that its role declares, one where it declares
/// none, and a role that declares nothing of its own has the server's settings.
pub proof fn law_each_role_of_a_topology_has_its_input(
    server: ServerDefinition,
    topology: ServeTopology,
    inputs: Seq<RoleInput>,
    i: int,
)
    requires
        topology_inputs(server, topology) == Ok::<Seq<RoleInput>, Seq<char>>(inputs),
        0 <= i < inputs.len(),
    ensures
        topology == ServeTopology::Single ==> inputs.len() == 1 && inputs[0].kind
            == ServeRoleKind::Serve,
        topology == ServeTopology::PrefillDecode ==> inputs.len() == 2 && inputs[0].kind
            == ServeRoleKind::Prefill && inputs[1].kind == ServeRoleKind::Decode,
        inputs[i].id == kind_text(inputs[i].kind),
        inputs[i].replica_count > 0,
        match server.roles.at(kind_text(inputs[i].kind)) {
            None => inputs[i].replica_count == 1 && inputs[i].settings == server.settings@,
            Some(role) => match role.replicas {
                Some(count) => inputs[i].replica_count == count,
                None => inputs[i].replica_count == 1,
            },
        },
{
    let kinds = topology_roles(topology);
    lemma_role_inputs(server, kinds);
    assert(inputs[i] == role_input(server, kinds[i])->Ok_0);
}

/// The inputs of kinds of roles are their inputs, one for each.
proof fn lemma_role_inputs(server: ServerDefinition, kinds: Seq<ServeRoleKind>)
    requires
        role_inputs(server, kinds) is Ok,
    ensures
        role_inputs(server, kinds)->Ok_0.len() == kinds.len(),
        forall|i: int|
            0 <= i < kinds.len() ==> role_input(server, #[trigger] kinds[i]) == Ok::<
                RoleInput,
                Seq<char>,
            >(role_inputs(server, kinds)->Ok_0[i]),
    decreases kinds.len(),
{
    if kinds.len() > 0 {
        let before = kinds.drop_last();
        lemma_role_inputs(server, before);
        assert forall|i: int| 0 <= i < kinds.len() implies role_input(server, #[trigger] kinds[i])
            == Ok::<RoleInput, Seq<char>>(role_inputs(server, kinds)->Ok_0[i]) by {
            if i < before.len() {
                assert(before[i] == kinds[i]);
            }
        }
    }
}

/// A time that a server declares is the one that applies, and the default applies only
/// where none is declared; captures that are asked for turn profiling on, and nothing
/// turns declared profiling off.
pub proof fn law_declared_time_prevails_over_the_default(
    input: EffectiveServerInput,
    topology: ServeTopology,
    effective: ServerDefinition,
    defaults: ServerDefaults,
    captures_requested: bool,
)
    requires
        input_of(input, topology, effective, defaults, captures_requested),
    ensures
        input.topology == topology,
        input.readiness_timeout_seconds == effective.readiness_timeout_seconds,
        match effective.readiness_attempt_timeout_seconds {
            Some(own) => input.readiness_attempt_timeout_seconds == own,
            None => input.readiness_attempt_timeout_seconds
                == defaults.readiness_attempt_timeout_seconds,
        },
        match effective.capture_arm_deadline_seconds {
            Some(own) => input.capture_arm_deadline_seconds == own,
            None => input.capture_arm_deadline_seconds == defaults.capture_arm_deadline_seconds,
        },
        match effective.capture_control_deadline_seconds {
            Some(own) => input.capture_control_deadline_seconds == own,
            None => input.capture_control_deadline_seconds
                == defaults.capture_control_deadline_seconds,
        },
        match effective.capture_finalization_deadline_seconds {
            Some(own) => input.capture_finalization_deadline_seconds == own,
            None => input.capture_finalization_deadline_seconds
                == defaults.capture_finalization_deadline_seconds,
        },
        input.gateway_backend == effective.gateway_backend,
        input.pd_router_backend == effective.pd_router_backend,
        input.kv_transfer == effective.kv_transfer,
        captures_requested ==> input.profiling,
        effective.profiling == Some(true) ==> input.profiling,
        !captures_requested && effective.profiling != Some(true) ==> !input.profiling,
{
}

/// A single server has no router and transfers nothing; a split one has both a gateway
/// and a router.
pub proof fn law_topology_has_the_parts_that_it_needs(
    topology: ServeTopology,
    effective: ServerDefinition,
)
    ensures
        topology == ServeTopology::Single ==> (topology_fault(topology, effective) is None
            <==> effective.pd_router_backend is None && effective.kv_transfer is None),
        topology == ServeTopology::PrefillDecode ==> (topology_fault(topology, effective) is None
            <==> effective.gateway_backend is Some && effective.pd_router_backend is Some),
{
}

/// An accepted override keeps the topology, adds no gateway or router that the server
/// does not declare, sets no time to zero and configures only roles of the topology.
pub proof fn law_accepted_override_keeps_the_shape_of_the_server(
    server: ServerDefinition,
    server_id: Seq<char>,
    patch: ServerOverridePatch,
    i: int,
)
    requires
        patch_fault(server, server_id, patch) is None,
        0 <= i < patch.change.roles.entries@.len(),
    ensures
        patch.topology is None,
        patch.change.gateway_backend is Some ==> server.gateway_backend is Some,
        patch.change.pd_router_backend is Some ==> server.pd_router_backend is Some,
        patch.change.readiness_timeout_seconds != Some(0u64),
        patch.change.readiness_attempt_timeout_seconds != Some(0u64),
        patch.change.capture_arm_deadline_seconds != Some(0u64),
        patch.change.capture_control_deadline_seconds != Some(0u64),
        patch.change.capture_finalization_deadline_seconds != Some(0u64),
        server.topology == ServeTopology::Single ==> patch.change.roles.entries@[i].0@ == "serve"@,
        server.topology == ServeTopology::PrefillDecode ==> patch.change.roles.entries@[i].0@
            == "prefill"@ || patch.change.roles.entries@[i].0@ == "decode"@,
{
    let foreign = foreign_role(patch.change.roles, server.topology);
    crate::search::lemma_first_index(patch.change.roles.entries@.len(), foreign);
    assert(!foreign(i));
}

/// The overrides that change the server are all but those for a measurement of the
/// recipe, in their order.
pub proof fn law_server_is_changed_by_what_is_meant_for_it(
    workflow: Workflow,
    overrides: Seq<InvocationOverride>,
    i: int,
)
    requires
        0 <= i < overrides.len(),
    ensures
        server_places(workflow, overrides).contains(i) <==> (starts(
            overrides[i].path@,
            "server."@,
        ) || !(workflow is RecipeRun) || !(starts(overrides[i].path@, "evals."@) || starts(
            overrides[i].path@,
            "benches."@,
        ))),
        forall|a: int, b: int|
            0 <= a < b < server_places(workflow, overrides).len() ==> 0 <= (
            #[trigger] server_places(workflow, overrides)[a]) < (
            #[trigger] server_places(workflow, overrides)[b]) < overrides.len(),
        forall|a: int|
            0 <= a < server_places(workflow, overrides).len() ==> 0 <= (
            #[trigger] server_places(workflow, overrides)[a]) < overrides.len(),
    decreases overrides.len(),
{
    let all = server_places(workflow, overrides);
    let fewer = overrides.drop_last();
    let before = server_places(workflow, fewer);
    let last = overrides.len() - 1;
    if fewer.len() > 0 {
        law_server_is_changed_by_what_is_meant_for_it(
            workflow,
            fewer,
            if i < last {
                i
            } else {
                0
            },
        );
    } else {
        assert(before =~= Seq::empty());
    }
    if i < last {
        assert(fewer[i] == overrides[i]);
        if before.contains(i) {
            let k = choose|k: int| 0 <= k < before.len() && before[k] == i;
            assert(all[k] == i);
        }
        if all.contains(i) {
            let k = choose|k: int| 0 <= k < all.len() && all[k] == i;
            assert(before[k] == i);
        }
    } else if all.len() > before.len() {
        assert(all[before.len() as int] == i);
    }
}

/// The case of a server prevails over the server, and an override over both: the last
/// of them to assign a value to a key is read back.
pub proof fn law_override_prevails_over_case_over_server(
    server: Seq<(Seq<char>, Tree)>,
    key: Seq<char>,
    from_case: Tree,
    overrides: Seq<IndexedServerOverride>,
    value: Tree,
)
    requires
        !(from_case is Table),
        !(value is Table),
    ensures
        overrides.len() == 0 ==> (composed_server(
            Tree::Table(server),
            Some(Tree::Table(seq![(key, from_case)])),
            overrides,
        ) matches Ok(Tree::Table(entries)) && crate::toml_value::entry_at(entries, key) == Some(
            from_case,
        )),
        overrides.len() > 0 && overrides.last().assignment.patch@ == Tree::Table(
            seq![(key, value)],
        ) ==> (composed_server(
            Tree::Table(server),
            Some(Tree::Table(seq![(key, from_case)])),
            overrides,
        ) matches Ok(tree) ==> (tree matches Tree::Table(entries) && crate::toml_value::entry_at(
            entries,
            key,
        ) == Some(value))),
{
    crate::toml_override::law_assigned_value_is_read_back(server, key, from_case, ""@, false);
    let base = merged(Tree::Table(server), Tree::Table(seq![(key, from_case)]), ""@, false);
    if overrides.len() > 0 && overridden(base->Ok_0, overrides) is Ok && overrides[overrides.len()
        - 1].assignment.patch@ == Tree::Table(seq![(key, value)]) {
        law_last_override_wins(base->Ok_0, overrides, key, value);
    }
}

/// A change is told with what it declares, and as what it was declared.
pub proof fn law_change_is_told_with_what_it_declares<'a>(
    source: DeclarationSource<'a>,
    change: &'a ServerCaseDefinition,
)
    ensures
        ({
            let told = change_declaration(source, change);
            &&& told.source == source && *told.roles == change.roles
            &&& told.common.readiness_timeout_seconds == change.readiness_timeout_seconds
            &&& told.common.readiness_attempt_timeout_seconds
                == change.readiness_attempt_timeout_seconds
            &&& told.common.capture_arm_deadline_seconds == change.capture_arm_deadline_seconds
            &&& told.common.capture_control_deadline_seconds
                == change.capture_control_deadline_seconds
            &&& told.common.capture_finalization_deadline_seconds
                == change.capture_finalization_deadline_seconds
            &&& *told.common.gateway_backend == change.gateway_backend
            &&& *told.common.pd_router_backend == change.pd_router_backend
            &&& told.common.kv_transfer == change.kv_transfer
            &&& told.common.profiling == change.profiling
            &&& told.common.parallelism == change.parallelism
            &&& *told.common.settings == change.settings
        }),
{
}

/// A server is told with what it declares, under its id.
pub proof fn law_server_is_told_with_what_it_declares<'a>(id: &'a str, server: &'a ServerDefinition)
    ensures
        ({
            let told = server_declaration(id, server);
            &&& told.source matches DeclarationSource::Server { id: found } && found == id
            &&& *told.roles == server.roles
            &&& told.common.readiness_timeout_seconds == Some(server.readiness_timeout_seconds)
            &&& told.common.readiness_attempt_timeout_seconds
                == server.readiness_attempt_timeout_seconds
            &&& told.common.capture_arm_deadline_seconds == server.capture_arm_deadline_seconds
            &&& told.common.capture_control_deadline_seconds
                == server.capture_control_deadline_seconds
            &&& told.common.capture_finalization_deadline_seconds
                == server.capture_finalization_deadline_seconds
            &&& *told.common.gateway_backend == server.gateway_backend
            &&& *told.common.pd_router_backend == server.pd_router_backend
            &&& told.common.kv_transfer == server.kv_transfer
            &&& told.common.profiling == server.profiling
            &&& told.common.parallelism == server.parallelism
            &&& *told.common.settings == server.settings
        }),
{
}

/// Only settings of the server are overridden: an override is accepted exactly where its
/// path lies below the server, its assignment and its patch can be read, and the patch
/// fits the server.
pub proof fn law_only_settings_of_the_server_are_overridden(
    server: ServerDefinition,
    server_id: Seq<char>,
    item: InvocationOverride,
    parsed: Result<ServerOverridePatch, String>,
    path: Seq<char>,
)
    ensures
        item_fault(server, server_id, item, parsed) is None ==> after_prefix(
            item.path@,
            "server."@,
        ) is Some,
        item.path@ == "server."@ + path ==> (item_fault(server, server_id, item, parsed) is None
            <==> item_assignment(item, path) is Ok && (parsed matches Ok(patch) && patch_fault(
            server,
            server_id,
            patch,
        ) is None)),
{
    if item.path@ == "server."@ + path {
        let prefix = "server."@;
        assert(item.path@.take(prefix.len() as int) =~= prefix);
        assert(item.path@.skip(prefix.len() as int) =~= path);
    }
}

/// The settings of a role are the common ones, with its own in their place where it has them:
/// a value that the role sets counts, and a key that it does not set is the common one.
pub proof fn law_settings_of_a_role_prevail(
    scope: Seq<char>,
    common: Seq<(Seq<char>, Tree)>,
    own: Seq<(Seq<char>, Tree)>,
    i: int,
    key: Seq<char>,
)
    requires
        role_settings(scope, Tree::Table(common), Some(Tree::Table(own))) is Ok,
        forall|a: int, b: int|
            0 <= a < b < own.len() ==> (#[trigger] own[a]).0 != (#[trigger] own[b]).0,
        0 <= i < own.len(),
        !(own[i].1 is Table),
    ensures
        role_settings(scope, Tree::Table(common), None) == Ok::<Tree, Seq<char>>(
            Tree::Table(common),
        ),
        role_settings(scope, Tree::Table(common), Some(Tree::Table(own)))->Ok_0 matches Tree::Table(
            out,
        ) && {
            &&& entry_at(out, own[i].0) == Some(own[i].1)
            &&& (forall|a: int| 0 <= a < own.len() ==> (#[trigger] own[a]).0 != key) ==> entry_at(
                out,
                key,
            ) == entry_at(common, key)
        },
{
    crate::toml_override::law_each_assigned_value_is_read_back(common, own, ""@, false, i);
    if forall|a: int| 0 <= a < own.len() ==> (#[trigger] own[a]).0 != key {
        crate::toml_override::law_unnamed_keys_are_kept(common, own, ""@, false, key);
    }
}

/// The declarations of a server come first, then those of its case, then those of the
/// invocation in the order in which they were given, each with its own place.
pub proof fn law_declarations_are_told_in_order<'a>(
    r: Seq<ServerDeclarationPlan<'a>>,
    server_id: &'a str,
    server: &'a ServerDefinition,
    case: Option<(&'a str, &'a ServerCaseDefinition)>,
    overrides: Seq<IndexedServerOverride<'a>>,
    i: int,
)
    requires
        declared_in_order(r, server_id, server, case, overrides),
        0 <= i < overrides.len(),
    ensures
        r[0].source matches DeclarationSource::Server { id } && id == server_id,
        case matches Some((name, definition)) ==> {
            &&& r.len() == overrides.len() + 2
            &&& r[1].source matches DeclarationSource::Case { id } && id == name
            &&& *r[1].common.settings == definition.settings
            &&& r[2 + i].source matches DeclarationSource::Invocation { index } && index
                == overrides[i].invocation.index
        },
        case is None ==> {
            &&& r.len() == overrides.len() + 1
            &&& r[1 + i].source matches DeclarationSource::Invocation { index } && index
                == overrides[i].invocation.index
        },
        *r[r.len() - overrides.len() + i].common.settings == overrides[i].patch.change.settings,
{
    assert(overrides[i] == overrides[i]);
}

} // verus!
