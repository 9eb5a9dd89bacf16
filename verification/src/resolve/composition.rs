//! What resolution decides once the processes are realized: the interface that
//! they communicate over and the model that measurements address.

use crate::dict::{names_are, Names};
use crate::error::{invalid_config, refuses, InferlabError};
use crate::resolve::allocation::{AllocationIdentity, ResolvedProcessAllocation};
use crate::resolve::realization::{CommandPlan, ProcessPlan};
use crate::resolve::workflow::Workflow;
use crate::search::{first_index, lemma_first_index, lemma_first_index_is};
use crate::text::{cat3, debug, debug_text, lists};
use crate::workspace::ModelWeightBinding;
use vstd::prelude::*;
use vstd::string::*;

verus! {

/// How the stack of an execution is realized.
#[derive(Clone, Copy, Debug, PartialEq, Eq, Structural)]
pub enum CheckRealization {
    LocalWorkspace,
    Image,
    ExternalImage,
}

/// What the caches of processes are kept apart by, beside the workspace: the identity
/// of the image that they run in, or the digest of an external one.
pub fn image_identity<'a>(image: Option<&'a str>, external_digest: Option<&'a str>) -> (r: Option<
    &'a str,
>)
    ensures
        r == if image is Some {
            image
        } else {
            external_digest
        },
{
    match image {
        Some(id) => Some(id),
        None => external_digest,
    }
}

/// The realization that an image selection asks for.
pub fn stack_realization(image: bool, external: bool) -> (r: CheckRealization)
    ensures
        r == if image {
            CheckRealization::Image
        } else if external {
            CheckRealization::ExternalImage
        } else {
            CheckRealization::LocalWorkspace
        },
{
    if image {
        CheckRealization::Image
    } else if external {
        CheckRealization::ExternalImage
    } else {
        CheckRealization::LocalWorkspace
    }
}

/// The variable that names the interface.
pub open spec fn interface_variable() -> Seq<char> {
    "NCCL_SOCKET_IFNAME"@
}

/// Whether a plan is another one that communicates over the interface.
pub open spec fn communicates(plan: ProcessPlan, before: ProcessPlan, interface: Seq<char>) -> bool {
    &&& plan.id == before.id
    &&& plan.identity == before.identity
    &&& plan.command_source == before.command_source
    &&& plan.machine == before.machine
    &&& plan.launch == before.launch
    &&& plan.launch_dependencies == before.launch_dependencies
    &&& plan.allocation == before.allocation
    &&& plan.communication_interface is Some
    &&& plan.communication_interface->0@ == interface
    &&& plan.command.argv == before.command.argv
    &&& plan.command.pass_env == before.command.pass_env
    &&& plan.command.cwd == before.command.cwd
    &&& plan.command.env.wf()
    &&& forall|key: Seq<char>| #[trigger]
        plan.command.env.text_at(key) == if key == interface_variable() {
            Some(interface)
        } else {
            before.command.env.text_at(key)
        }
    &&& names_are(
        plan.command.explicit_env@,
        |name: Seq<char>| name == interface_variable() || lists(before.command.explicit_env@, name),
    )
    &&& plan.launch_files == before.launch_files
    &&& plan.readiness == before.readiness
    &&& plan.endpoint == before.endpoint
    &&& plan.capture_target == before.capture_target
}

fn with_interface<'a>(plan: ProcessPlan<'a>, interface: &str) -> (r: ProcessPlan<'a>)
    requires
        plan.command.env.wf(),
    ensures
        communicates(r, plan, interface@),
{
    let ghost before = plan;
    let ProcessPlan {
        id,
        identity,
        command_source,
        machine,
        launch,
        launch_dependencies,
        allocation,
        communication_interface: _,
        command,
        launch_files,
        readiness,
        endpoint,
        capture_target,
    } = plan;
    let CommandPlan { argv, env, explicit_env, pass_env, cwd } = command;
    let mut env = env;
    env.set_text("NCCL_SOCKET_IFNAME", interface.to_owned());
    let mut names = Names::new();
    names.add("NCCL_SOCKET_IFNAME");
    let mut i: usize = 0;
    while i < explicit_env.len()
        invariant
            i <= explicit_env@.len(),
            names.wf(),
            forall|name: Seq<char>| #[trigger]
                names.has(name) <==> name == interface_variable() || exists|j: int|
                    0 <= j < i && (#[trigger] explicit_env@[j])@ == name,
        decreases explicit_env@.len() - i,
    {
        let ghost earlier = names;
        names.add(explicit_env[i].as_str());
        proof {
            assert forall|name: Seq<char>| #[trigger]
                names.has(name) <==> name == interface_variable() || exists|j: int|
                    0 <= j < i + 1 && (#[trigger] explicit_env@[j])@ == name by {
                if names.has(name) && name == explicit_env@[i as int]@ {
                    assert(explicit_env@[i as int]@ == name);
                } else if names.has(name) {
                    assert(earlier.has(name));
                }
                if exists|j: int| 0 <= j < i + 1 && (#[trigger] explicit_env@[j])@ == name {
                    let j = choose|j: int| 0 <= j < i + 1 && (#[trigger] explicit_env@[j])@ == name;
                    if j < i {
                        assert(earlier.has(name));
                    }
                }
            }
        }
        i += 1;
    }
    let names_list = names.list();
    proof {
        assert forall|name: Seq<char>| #[trigger]
            lists(names_list@, name) == (name == interface_variable() || lists(
                before.command.explicit_env@,
                name,
            )) by {
            assert(names.has(name) == lists(names_list@, name));
        }
    }
    ProcessPlan {
        id,
        identity,
        command_source,
        machine,
        launch,
        launch_dependencies,
        allocation,
        communication_interface: Some(interface.to_owned()),
        command: CommandPlan { argv, env, explicit_env: names_list, pass_env, cwd },
        launch_files,
        readiness,
        endpoint,
        capture_target,
    }
}

/// Binds every process to the interface that was selected for communication.
pub fn apply_network<'a>(processes: Vec<ProcessPlan<'a>>, interface: &str) -> (r: Vec<
    ProcessPlan<'a>,
>)
    requires
        forall|i: int| 0 <= i < processes@.len() ==> (#[trigger] processes@[i]).command.env.wf(),
    ensures
        r@.len() == processes@.len(),
        forall|i: int|
            0 <= i < r@.len() ==> communicates(#[trigger] r@[i], processes@[i], interface@),
{
    let ghost start = processes@;
    let mut rest = processes;
    let mut out: Vec<ProcessPlan<'a>> = Vec::new();
    while rest.len() > 0
        invariant
            rest@.len() + out@.len() == start.len(),
            forall|j: int| 0 <= j < rest@.len() ==> (#[trigger] rest@[j]) == start[out@.len() + j],
            forall|j: int| 0 <= j < start.len() ==> (#[trigger] start[j]).command.env.wf(),
            forall|j: int|
                0 <= j < out@.len() ==> communicates(#[trigger] out@[j], start[j], interface@),
        decreases rest@.len(),
    {
        assert(rest@[0] == start[out@.len() as int]);
        let plan = rest.remove(0);
        out.push(with_interface(plan, interface));
    }
    out
}

/// Which allocations are the first rank of a replica.
pub open spec fn is_first_rank(allocations: Seq<ResolvedProcessAllocation>) -> spec_fn(int) -> bool {
    |i: int| allocations[i].identity matches AllocationIdentity::ModelRank { rank, .. } && rank == 0
}

/// The locator of the model that measurements use, if there is one.
pub open spec fn measured_locator(
    weight: ModelWeightBinding,
    allocations: Seq<ResolvedProcessAllocation>,
) -> Option<Seq<char>> {
    match weight.locator {
        Some(locator) => Some(locator@),
        None => match first_index(allocations.len(), is_first_rank(allocations)) {
            Some(i) => match allocations[i].identity {
                AllocationIdentity::ModelRank { model_locator, .. } => Some(model_locator@),
                _ => None,
            },
            None => None,
        },
    }
}

/// The model that the measurements of a workflow address: none where a server is
/// only started; for a recipe the locator of the binding, or else the one that
/// the first rank was given.
pub fn compose_measurements(
    workflow: Workflow,
    has_suite: bool,
    server_id: &str,
    weight: &ModelWeightBinding,
    allocations: &[ResolvedProcessAllocation],
) -> (r: Result<Option<String>, InferlabError>)
    ensures
        match workflow {
            Workflow::ServeStart => r matches Ok(None),
            Workflow::RecipeRun => if !has_suite {
                refuses(r, "recipe workflow has no workload suite"@)
            } else {
                match measured_locator(*weight, allocations@) {
                    Some(locator) => r matches Ok(Some(found)) && found@ == locator,
                    None => refuses(
                        r,
                        "recipe target server "@ + debug_text(server_id@)
                            + " has no model locator usable by its measurements"@,
                    ),
                }
            },
        },
{
    match workflow {
        Workflow::ServeStart => return Ok(None),
        Workflow::RecipeRun => {},
    }
    if !has_suite {
        return invalid_config("recipe workflow has no workload suite".to_owned());
    }
    if let Some(locator) = &weight.locator {
        return Ok(Some(locator.clone()));
    }
    let ghost p = is_first_rank(allocations@);
    proof {
        lemma_first_index(allocations@.len(), p);
    }
    let mut i: usize = 0;
    while i < allocations.len()
        invariant
            i <= allocations@.len(),
            p == is_first_rank(allocations@),
            weight.locator is None,
            forall|j: int| 0 <= j < i ==> !(#[trigger] p(j)),
            workflow is RecipeRun,
            has_suite,
        decreases allocations@.len() - i,
    {
        if let AllocationIdentity::ModelRank { rank, model_locator, .. } = &allocations[i].identity {
            if *rank == 0 {
                proof {
                    assert(p(i as int));
                    lemma_first_index_is(allocations@.len(), p, i as int);
                }
                return Ok(Some(model_locator.clone()));
            }
        }
        assert(!p(i as int));
        i += 1;
    }
    invalid_config(
        cat3(
            "recipe target server ",
            debug(server_id).as_str(),
            " has no model locator usable by its measurements",
        ),
    )
}

// ---------------------------------------------------------------------------
// Laws

/// A process that was bound to an interface communicates over it, is told of it in its
/// environment on purpose, and is otherwise what it was.
pub proof fn law_bound_process_is_told_of_its_interface(
    plan: ProcessPlan,
    before: ProcessPlan,
    interface: Seq<char>,
    key: Seq<char>,
)
    requires
        communicates(plan, before, interface),
    ensures
        plan.communication_interface matches Some(own) && own@ == interface,
        plan.command.env.text_at("NCCL_SOCKET_IFNAME"@) == Some(interface),
        lists(plan.command.explicit_env@, "NCCL_SOCKET_IFNAME"@),
        key != "NCCL_SOCKET_IFNAME"@ ==> plan.command.env.text_at(key)
            == before.command.env.text_at(key),
        key != "NCCL_SOCKET_IFNAME"@ ==> lists(plan.command.explicit_env@, key) == lists(
            before.command.explicit_env@,
            key,
        ),
        plan.id == before.id,
        plan.machine == before.machine,
        plan.endpoint == before.endpoint,
        plan.command.argv == before.command.argv,
        plan.command.cwd == before.command.cwd,
        plan.readiness == before.readiness,
{
}

/// Measurements use the model's own locator where it has one, else that of the first
/// of the first ranks; without either there is none.
pub proof fn law_measurements_use_a_locator_of_the_model(
    weight: ModelWeightBinding,
    allocations: Seq<ResolvedProcessAllocation>,
    i: int,
)
    requires
        0 <= i < allocations.len(),
        allocations[i].identity matches AllocationIdentity::ModelRank { rank, .. } && rank == 0,
        forall|j: int|
            0 <= j < i ==> !((#[trigger] allocations[j]).identity matches AllocationIdentity::ModelRank {
                rank,
                ..
            } && rank == 0),
    ensures
        weight.locator matches Some(locator) ==> measured_locator(weight, allocations) == Some(
            locator@,
        ),
        weight.locator is None ==> (
        allocations[i].identity matches AllocationIdentity::ModelRank { model_locator, .. }
            && measured_locator(weight, allocations) == Some(model_locator@)),
{
    crate::search::lemma_first_index_is(allocations.len(), is_first_rank(allocations), i);
}

} // verus!
