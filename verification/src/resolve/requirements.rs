//! The processes that a plan asks for: one for each rank of each replica, and
//! the frontend that fronts them.

use crate::dict::{lookup, with_entry, Dict};
use crate::error::{answers, invalid_config, or_fault, refuses, InferlabError};
use crate::protocol::{
    CaptureMechanism, CaptureWindowControlEndpoint, CaptureWindowHttpActionSpec,
    FrontendComponents, FrontendProcessRole, GatewayPlan, PdRouterPlan, PlanServeResult,
    ReadinessProbe, ServeReplicaRequirement, ServeRoleLink, ServeRoleResult, SuppliedRenderInput,
};
use crate::resolve::topology::{find_role, role_index};
use crate::search::{first_some, lemma_first_some_none, lemma_first_some_stays};
use crate::text::{
    cat2, cat3, cat5, cat6, copy_list, debug, debug_text, decimal, list_contains, lists, padded,
    same, texts, to_decimal, to_decimal_wide, to_padded,
};
use crate::workspace::{NsysEscapes, PlacementBinding, ProfilerDefinition, RankBinding};
use vstd::prelude::*;
use vstd::string::*;

verus! {

// ---------------------------------------------------------------------------
// Data

/// Devices that a placement binds to a process.
pub struct FixedDeviceAssignment {
    pub machine: String,
    pub devices: Vec<u32>,
    pub endpoint_port: Option<u16>,
}

/// A capture target whose control endpoint is not resolved yet.
pub struct PendingCaptureTargetPlan<'a> {
    pub mechanism: CaptureMechanism,
    pub window_control_endpoint: CaptureWindowControlEndpoint,
    pub replica_entry_process_id: String,
    /// The device count of the whole replica.
    pub device_count: u32,
    pub start: &'a CaptureWindowHttpActionSpec,
    pub stop: &'a CaptureWindowHttpActionSpec,
    pub escapes: &'a NsysEscapes,
}

/// What a process is for.
pub enum ProcessRequirementIdentity<'a> {
    ModelRank {
        role: &'a ServeRoleResult,
        replica: &'a ServeReplicaRequirement,
        rank: u32,
        links: Vec<&'a ServeRoleLink>,
        render_inputs: Vec<SuppliedRenderInput>,
    },
    Frontend {
        process_role: FrontendProcessRole,
        components: FrontendComponents,
        gateway: &'a GatewayPlan,
        pd_router: Option<&'a PdRouterPlan>,
        links: Vec<&'a ServeRoleLink>,
        render_inputs: Vec<SuppliedRenderInput>,
    },
}

/// A process that the plan asks for.
pub struct ProcessRequirement<'a> {
    pub id: String,
    pub identity: ProcessRequirementIdentity<'a>,
    pub device_count: u32,
    pub ports: Vec<String>,
    pub readiness: &'a ReadinessProbe,
    pub launch_dependencies: Vec<String>,
    pub capture_target: Option<PendingCaptureTargetPlan<'a>>,
    pub fixed_devices: Option<FixedDeviceAssignment>,
}

/// The escapes of a server, and those of its roles merged with them.
pub struct EffectiveEscapes {
    pub common: NsysEscapes,
    pub roles: Dict<NsysEscapes>,
}

// ---------------------------------------------------------------------------
// Links and names

/// The link has the node at one of its ends.
pub open spec fn touches(link: ServeRoleLink, node: Seq<char>) -> bool {
    match link {
        ServeRoleLink::RequestRouting { source, targets } => source@ == node || lists(
            targets@,
            node,
        ),
        ServeRoleLink::KvTransfer { source, target, .. } => source@ == node || target@ == node,
        ServeRoleLink::Bootstrap { source, target, .. } => source@ == node || target@ == node,
        ServeRoleLink::SideChannel { source, target, .. } => source@ == node || target@ == node,
    }
}

/// The links that have the node at one of their ends, in their order.
pub open spec fn links_of(links: Seq<ServeRoleLink>, node: Seq<char>) -> Seq<ServeRoleLink> {
    links.filter(|link: ServeRoleLink| touches(link, node))
}

/// The links that a list refers to.
pub open spec fn referred(links: Seq<&ServeRoleLink>) -> Seq<ServeRoleLink> {
    links.map_values(|link: &ServeRoleLink| *link)
}

fn check_touches(link: &ServeRoleLink, node: &str) -> (r: bool)
    ensures
        r == touches(*link, node@),
{
    match link {
        ServeRoleLink::RequestRouting { source, targets } => same(source.as_str(), node)
            || list_contains(targets.as_slice(), node),
        ServeRoleLink::KvTransfer { source, target, .. } => same(source.as_str(), node) || same(
            target.as_str(),
            node,
        ),
        ServeRoleLink::Bootstrap { source, target, .. } => same(source.as_str(), node) || same(
            target.as_str(),
            node,
        ),
        ServeRoleLink::SideChannel { source, target, .. } => same(source.as_str(), node) || same(
            target.as_str(),
            node,
        ),
    }
}

/// The links that have the node at one of their ends.
pub fn links_for_node<'a>(links: &'a [ServeRoleLink], node: &str) -> (r: Vec<&'a ServeRoleLink>)
    ensures
        referred(r@) == links_of(links@, node@),
{
    let mut out: Vec<&'a ServeRoleLink> = Vec::new();
    let mut i: usize = 0;
    let ghost p = |link: ServeRoleLink| touches(link, node@);
    assert(referred(out@) =~= links@.take(0).filter(p)) by {
        reveal(Seq::filter);
    }
    while i < links.len()
        invariant
            i <= links@.len(),
            p == (|link: ServeRoleLink| touches(link, node@)),
            referred(out@) =~= links@.take(i as int).filter(p),
        decreases links@.len() - i,
    {
        let ghost before = referred(out@);
        assert(links@.take(i + 1).drop_last() =~= links@.take(i as int));
        if check_touches(&links[i], node) {
            out.push(&links[i]);
            assert(referred(out@) =~= before.push(links@[i as int]));
        }
        proof {
            reveal(Seq::filter);
        }
        i += 1;
    }
    assert(links@.take(i as int) =~= links@);
    out
}

/// The id of a rank's process: that of the replica where it has one rank, else
/// with the rank in at least three digits behind it.
pub open spec fn process_id_text(replica_id: Seq<char>, rank: nat, rank_count: nat) -> Seq<char> {
    if rank_count == 1 {
        replica_id
    } else {
        replica_id + "-rank-"@ + padded(decimal(rank), 3)
    }
}

/// The id of a rank's process.
pub fn process_id(replica_id: &str, rank: u32, rank_count: usize) -> (r: String)
    ensures
        r@ == process_id_text(replica_id@, rank as nat, rank_count as nat),
{
    if rank_count == 1 {
        replica_id.to_owned()
    } else {
        cat3(replica_id, "-rank-", to_padded(rank as u64, 3).as_str())
    }
}

// ---------------------------------------------------------------------------
// Placement

/// A role of the placement is bound rank by rank.
pub open spec fn explicit(placement: PlacementBinding) -> bool {
    exists|i: int|
        0 <= i < placement.roles.entries@.len() && (#[trigger] placement.roles.entries@[i]).1 is Replicas
}

/// Whether a role of the placement is bound rank by rank.
pub fn uses_explicit_replica_placement(placement: &PlacementBinding) -> (r: bool)
    ensures
        r == explicit(*placement),
{
    let entries = &placement.roles.entries;
    let mut i: usize = 0;
    while i < entries.len()
        invariant
            *entries == placement.roles.entries,
            i <= entries@.len(),
            forall|j: int| 0 <= j < i ==> !((#[trigger] entries@[j]).1 is Replicas),
        decreases entries@.len() - i,
    {
        if entries[i].1.uses_explicit_replicas() {
            assert(placement.roles.entries@[i as int].1 is Replicas);
            return true;
        }
        i += 1;
    }
    false
}

/// For each role, in the order of the names, one more than its largest replica index.
pub open spec fn role_spans(replicas: Seq<ServeReplicaRequirement>) -> Seq<(String, u32)>
    decreases replicas.len(),
{
    if replicas.len() == 0 {
        Seq::empty()
    } else {
        let before = role_spans(replicas.drop_last());
        let last = replicas.last();
        let known: int = match lookup(before, last.role_id@) {
            Some(count) => count as int,
            None => 0,
        };
        let span: int = if known > last.replica_index + 1 {
            known
        } else {
            last.replica_index + 1
        };
        with_entry(before, last.role_id, span as u32)
    }
}

fn compute_role_spans(replicas: &[ServeReplicaRequirement]) -> (r: Dict<u32>)
    requires
        forall|i: int| 0 <= i < replicas@.len() ==> (#[trigger] replicas@[i]).replica_index < u32::MAX,
    ensures
        r.entries@ == role_spans(replicas@),
{
    let mut spans: Dict<u32> = Dict::new();
    let mut i: usize = 0;
    assert(replicas@.take(0) =~= Seq::empty());
    while i < replicas.len()
        invariant
            i <= replicas@.len(),
            spans.entries@ == role_spans(replicas@.take(i as int)),
            forall|j: int|
                0 <= j < replicas@.len() ==> (#[trigger] replicas@[j]).replica_index < u32::MAX,
        decreases replicas@.len() - i,
    {
        let replica = &replicas[i];
        assert(replicas@.take(i + 1).drop_last() =~= replicas@.take(i as int));
        let own: u32 = replica.replica_index + 1;
        let span: u32 = match spans.get(replica.role_id.as_str()) {
            Some(known) => if *known > own { *known } else { own },
            None => own,
        };
        spans.insert(replica.role_id.clone(), span);
        i += 1;
    }
    assert(replicas@.take(i as int) =~= replicas@);
    spans
}

/// Why a role that the placement names is refused.
pub open spec fn placed_role_fault(plan: PlanServeResult, placement: PlacementBinding) -> spec_fn(
    int,
) -> Option<Seq<char>> {
    |i: int|
        {
            let role = placement.roles.entries@[i].0@;
            if lookup(role_spans(plan.replicas@), role) is Some || (role == "gateway"@
                && plan.gateway is Some) {
                None
            } else {
                Some(
                    "placement references role "@ + debug_text(role)
                        + ", which is not part of the resolved topology"@,
                )
            }
        }
}

/// How many replicas the placement binds for a role.
pub open spec fn replicas_placed(placement: PlacementBinding, role: Seq<char>) -> nat {
    match placement.roles.at(role) {
        Some(binding) => match binding.replicas_bound() {
            Some(n) => n,
            None => 0,
        },
        None => 0,
    }
}

/// Why the number of replicas that the placement binds for a role is refused.
pub open spec fn placed_count_fault(plan: PlanServeResult, placement: PlacementBinding) -> spec_fn(
    int,
) -> Option<Seq<char>> {
    |i: int|
        {
            let (role, expected) = role_spans(plan.replicas@)[i];
            let actual = replicas_placed(placement, role@);
            if actual == expected {
                None
            } else {
                Some(
                    "placement assigns "@ + decimal(actual) + " replicas to role "@ + debug_text(
                        role@,
                    ) + ", which requires "@ + decimal(expected as nat),
                )
            }
        }
}

/// Why the placement does not fit the plan.
pub open spec fn placement_fault(plan: PlanServeResult, placement: PlacementBinding) -> Option<
    Seq<char>,
> {
    or_fault(
        first_some(placement.roles.entries@.len(), placed_role_fault(plan, placement)),
        if !explicit(placement) {
            None
        } else {
            or_fault(
                first_some(
                    role_spans(plan.replicas@).len(),
                    placed_count_fault(plan, placement),
                ),
                if plan.gateway is Some && !(placement.roles.at("gateway"@) matches Some(binding)
                    && binding.replicas_bound() == Some(1nat)) {
                    Some("explicit routed placement must bind exactly one Gateway process"@)
                } else {
                    None
                },
            )
        },
    )
}

fn count_replicas_placed(placement: &PlacementBinding, role: &str) -> (r: usize)
    ensures
        r == replicas_placed(*placement, role@),
{
    match placement.roles.get(role) {
        Some(binding) => match binding.replica_count() {
            Some(n) => n,
            None => 0,
        },
        None => 0,
    }
}

fn check_placed_roles(
    plan: &PlanServeResult,
    placement: &PlacementBinding,
    spans: &Dict<u32>,
) -> (r: Result<(), InferlabError>)
    requires
        spans.entries@ == role_spans(plan.replicas@),
    ensures
        answers(
            r,
            first_some(placement.roles.entries@.len(), placed_role_fault(*plan, *placement)),
        ),
{
    let ghost f = placed_role_fault(*plan, *placement);
    let mut i: usize = 0;
    while i < placement.roles.entries.len()
        invariant
            i <= placement.roles.entries@.len(),
            spans.entries@ == role_spans(plan.replicas@),
            f == placed_role_fault(*plan, *placement),
            first_some(i as nat, f) is None,
        decreases placement.roles.entries@.len() - i,
    {
        let role = placement.roles.entries[i].0.as_str();
        if !(spans.contains_key(role) || (same(role, "gateway") && plan.gateway.is_some())) {
            proof {
                lemma_first_some_stays((i + 1) as nat, placement.roles.entries@.len(), f);
            }
            return invalid_config(
                cat3(
                    "placement references role ",
                    debug(role).as_str(),
                    ", which is not part of the resolved topology",
                ),
            );
        }
        i += 1;
    }
    Ok(())
}

fn check_placed_counts(
    plan: &PlanServeResult,
    placement: &PlacementBinding,
    spans: &Dict<u32>,
) -> (r: Result<(), InferlabError>)
    requires
        spans.entries@ == role_spans(plan.replicas@),
    ensures
        answers(
            r,
            first_some(
                role_spans(plan.replicas@).len(),
                placed_count_fault(*plan, *placement),
            ),
        ),
{
    let ghost f = placed_count_fault(*plan, *placement);
    let mut i: usize = 0;
    while i < spans.entries.len()
        invariant
            i <= spans.entries@.len(),
            spans.entries@ == role_spans(plan.replicas@),
            f == placed_count_fault(*plan, *placement),
            first_some(i as nat, f) is None,
        decreases spans.entries@.len() - i,
    {
        let role = spans.entries[i].0.as_str();
        let expected: u32 = spans.entries[i].1;
        let actual: usize = count_replicas_placed(placement, role);
        if actual != expected as usize {
            proof {
                lemma_first_some_stays((i + 1) as nat, spans.entries@.len(), f);
            }
            return invalid_config(
                cat6(
                    "placement assigns ",
                    to_decimal(actual as u64).as_str(),
                    " replicas to role ",
                    debug(role).as_str(),
                    ", which requires ",
                    to_decimal(expected as u64).as_str(),
                ),
            );
        }
        i += 1;
    }
    Ok(())
}

fn check_placement(plan: &PlanServeResult, placement: &PlacementBinding) -> (r: Result<
    (),
    InferlabError,
>)
    requires
        forall|i: int|
            0 <= i < plan.replicas@.len() ==> (#[trigger] plan.replicas@[i]).replica_index
                < u32::MAX,
    ensures
        answers(r, placement_fault(*plan, *placement)),
{
    let spans = compute_role_spans(plan.replicas.as_slice());
    match check_placed_roles(plan, placement, &spans) {
        Err(error) => {
            return Err(error);
        },
        Ok(()) => {},
    }
    if !uses_explicit_replica_placement(placement) {
        return Ok(());
    }
    match check_placed_counts(plan, placement, &spans) {
        Err(error) => {
            return Err(error);
        },
        Ok(()) => {},
    }
    let one_gateway = match placement.roles.get("gateway") {
        Some(binding) => match binding.replica_count() {
            Some(n) => n == 1,
            None => false,
        },
        None => false,
    };
    if plan.gateway.is_some() && !one_gateway {
        return invalid_config(
            "explicit routed placement must bind exactly one Gateway process".to_owned(),
        );
    }
    Ok(())
}

// ---------------------------------------------------------------------------
// Expansion

/// The ranks that the placement binds for a replica.
pub open spec fn ranks_bound(
    placement: PlacementBinding,
    replica: ServeReplicaRequirement,
) -> Option<Seq<RankBinding>> {
    match placement.roles.at(replica.role_id@) {
        Some(binding) => match binding.ranks_at(replica.replica_index as int) {
            Some(ranks) => Some(ranks@),
            None => None,
        },
        None => None,
    }
}

/// The ranks of a replica: those that an explicit placement binds, else none in
/// particular.
pub open spec fn replica_ranks(
    placement: PlacementBinding,
    replica: ServeReplicaRequirement,
) -> Seq<RankBinding> {
    match ranks_bound(placement, replica) {
        Some(ranks) => if explicit(placement) {
            ranks
        } else {
            Seq::empty()
        },
        None => Seq::empty(),
    }
}

/// How many processes a replica has.
pub open spec fn rank_count(placement: PlacementBinding, replica: ServeReplicaRequirement) -> nat {
    if explicit(placement) {
        replica_ranks(placement, replica).len()
    } else {
        1
    }
}

/// How many devices the ranks hold together.
pub open spec fn devices_bound(ranks: Seq<RankBinding>) -> nat
    decreases ranks.len(),
{
    if ranks.len() == 0 {
        0
    } else {
        devices_bound(ranks.drop_last()) + ranks.last().devices@.len()
    }
}

/// No rank holds more devices than all together.
proof fn lemma_devices_bound(ranks: Seq<RankBinding>, i: int)
    requires
        0 <= i < ranks.len(),
    ensures
        ranks[i].devices@.len() <= devices_bound(ranks),
    decreases ranks.len(),
{
    if i < ranks.len() - 1 {
        assert(ranks.drop_last()[i] == ranks[i]);
        lemma_devices_bound(ranks.drop_last(), i);
    }
}

/// Why the replica at a position cannot be expanded.
pub open spec fn expansion_fault(
    integration: Seq<char>,
    plan: PlanServeResult,
    placement: PlacementBinding,
) -> spec_fn(int) -> Option<Seq<char>> {
    |k: int|
        {
            let replica = plan.replicas@[k];
            if role_index(plan.roles@, replica.role_id@) is None {
                Some(
                    "integration "@ + debug_text(integration) + " replica "@ + debug_text(
                        replica.id@,
                    ) + " has no owning Engine role"@,
                )
            } else if explicit(placement) && ranks_bound(placement, replica) is None {
                Some(
                    "placement does not assign ranks for replica "@ + debug_text(replica.id@),
                )
            } else {
                let ranks = replica_ranks(placement, replica);
                if explicit(placement) && devices_bound(ranks) != replica.device_count {
                    Some(
                        "placement assigns "@ + decimal(devices_bound(ranks))
                            + " devices to replica "@ + debug_text(replica.id@)
                            + ", which requires "@ + decimal(replica.device_count as nat),
                    )
                } else if rank_count(placement, replica) > 0x1_0000_0000 {
                    Some("replica "@ + debug_text(replica.id@) + " has too many ranks"@)
                } else {
                    None
                }
            }
        }
}

/// The capture target is that of the replica, with the process of its first rank.
pub open spec fn capture_is(
    pending: Option<PendingCaptureTargetPlan>,
    replica: ServeReplicaRequirement,
    entry: Seq<char>,
    escapes: EffectiveEscapes,
) -> bool {
    match (replica.capture_target, pending) {
        (None, None) => true,
        (Some(target), Some(pending)) => {
            &&& pending.mechanism == target.mechanism
            &&& pending.window_control_endpoint == target.window_control.endpoint
            &&& pending.replica_entry_process_id@ == entry
            &&& pending.device_count == replica.device_count
            &&& *pending.start == target.window_control.start
            &&& *pending.stop == target.window_control.stop
            &&& *pending.escapes == match escapes.roles.at(replica.role_id@) {
                Some(merged) => merged,
                None => escapes.common,
            }
        },
        _ => false,
    }
}

/// The process is that of a rank of the replica at a position.
pub open spec fn process_is(
    p: ProcessRequirement,
    plan: PlanServeResult,
    placement: PlacementBinding,
    escapes: EffectiveEscapes,
    role_render_inputs: Dict<Vec<SuppliedRenderInput>>,
    k: int,
    rank: int,
) -> bool {
    let replica = plan.replicas@[k];
    let count = rank_count(placement, replica);
    let ranks = replica_ranks(placement, replica);
    let entry = process_id_text(replica.id@, 0, count);
    &&& p.id@ == process_id_text(replica.id@, rank as nat, count)
    &&& p.identity matches ProcessRequirementIdentity::ModelRank {
        role,
        replica: of,
        rank: number,
        links,
        render_inputs,
    } && {
        &&& Some(*role) == match role_index(plan.roles@, replica.role_id@) {
            Some(i) => Some(plan.roles@[i]),
            None => None,
        }
        &&& *of == replica
        &&& number == rank
        &&& referred(links@) == links_of(plan.links@, replica.role_id@)
        &&& render_inputs@ == match role_render_inputs.at(replica.role_id@) {
            Some(inputs) => inputs@,
            None => Seq::empty(),
        }
    }
    &&& p.device_count == if explicit(placement) {
        ranks[rank].devices@.len() as int
    } else {
        replica.device_count as int
    }
    &&& p.ports@ == if rank == 0 && count > 1 {
        replica.ports@ + replica.primary_ports@
    } else {
        replica.ports@
    }
    &&& *p.readiness == if rank == 0 {
        replica.primary_readiness
    } else {
        replica.worker_readiness
    }
    &&& texts(p.launch_dependencies@) == if rank == 0 {
        Seq::empty()
    } else {
        seq![entry]
    }
    &&& capture_is(p.capture_target, replica, entry, escapes)
    &&& match p.fixed_devices {
        Some(fixed) => explicit(placement) && fixed.machine == ranks[rank].machine
            && fixed.devices@ == ranks[rank].devices@ && fixed.endpoint_port
            == ranks[rank].endpoint_port,
        None => !explicit(placement),
    }
}

fn copy_devices(devices: &[u32]) -> (r: Vec<u32>)
    ensures
        r@ == devices@,
{
    let mut out: Vec<u32> = Vec::new();
    let mut i: usize = 0;
    while i < devices.len()
        invariant
            i <= devices@.len(),
            out@ =~= devices@.take(i as int),
        decreases devices@.len() - i,
    {
        out.push(devices[i]);
        i += 1;
    }
    assert(devices@.take(i as int) =~= devices@);
    out
}

/// A copy of the supplied inputs.
pub fn copy_render_inputs(inputs: &[SuppliedRenderInput]) -> (r: Vec<SuppliedRenderInput>)
    ensures
        r@ == inputs@,
{
    let mut out: Vec<SuppliedRenderInput> = Vec::new();
    let mut i: usize = 0;
    while i < inputs.len()
        invariant
            i <= inputs@.len(),
            out@ =~= inputs@.take(i as int),
        decreases inputs@.len() - i,
    {
        out.push(inputs[i].clone());
        i += 1;
    }
    assert(inputs@.take(i as int) =~= inputs@);
    out
}

fn count_devices(ranks: &[RankBinding]) -> (r: u128)
    ensures
        r == devices_bound(ranks@),
{
    let mut i: usize = 0;
    let mut sum: u128 = 0;
    while i < ranks.len()
        invariant
            i <= ranks@.len(),
            sum == devices_bound(ranks@.take(i as int)),
            sum <= i * 0x1_0000_0000_0000_0000,
        decreases ranks@.len() - i,
    {
        assert(ranks@.take(i + 1).drop_last() =~= ranks@.take(i as int));
        let more: usize = ranks[i].devices.len();
        assert(i * 0x1_0000_0000_0000_0000 + more <= (i + 1) * 0x1_0000_0000_0000_0000);
        sum = sum + more as u128;
        i += 1;
    }
    assert(ranks@.take(i as int) =~= ranks@);
    sum
}

fn pending_capture<'a>(
    replica: &'a ServeReplicaRequirement,
    entry: &str,
    escapes: &'a EffectiveEscapes,
) -> (r: Option<PendingCaptureTargetPlan<'a>>)
    ensures
        capture_is(r, *replica, entry@, *escapes),
{
    match &replica.capture_target {
        None => None,
        Some(target) => Some(
            PendingCaptureTargetPlan {
                mechanism: target.mechanism,
                window_control_endpoint: target.window_control.endpoint,
                replica_entry_process_id: entry.to_owned(),
                device_count: replica.device_count,
                start: &target.window_control.start,
                stop: &target.window_control.stop,
                escapes: match escapes.roles.get(replica.role_id.as_str()) {
                    Some(merged) => merged,
                    None => &escapes.common,
                },
            },
        ),
    }
}

/// The processes of one replica.
fn expand_replica<'a>(
    integration: &str,
    plan: &'a PlanServeResult,
    placement: &PlacementBinding,
    escapes: &'a EffectiveEscapes,
    role_render_inputs: &Dict<Vec<SuppliedRenderInput>>,
    k: usize,
) -> (r: Result<Vec<ProcessRequirement<'a>>, InferlabError>)
    requires
        k < plan.replicas@.len(),
    ensures
        match expansion_fault(integration@, *plan, *placement)(k as int) {
            Some(text) => refuses(r, text),
            None => {
                &&& r is Ok
                &&& r->Ok_0@.len() == rank_count(*placement, plan.replicas@[k as int])
                &&& forall|rank: int|
                    0 <= rank < r->Ok_0@.len() ==> process_is(
                        #[trigger] r->Ok_0@[rank],
                        *plan,
                        *placement,
                        *escapes,
                        *role_render_inputs,
                        k as int,
                        rank,
                    )
            },
        },
{
    let replica = &plan.replicas[k];
    let role = match find_role(plan.roles.as_slice(), replica.role_id.as_str()) {
        None => {
            return invalid_config(
                cat5(
                    "integration ",
                    debug(integration).as_str(),
                    " replica ",
                    debug(replica.id.as_str()).as_str(),
                    " has no owning Engine role",
                ),
            );
        },
        Some(i) => &plan.roles[i],
    };
    let bound = uses_explicit_replica_placement(placement);
    let none: Vec<RankBinding> = Vec::new();
    let ranks: &Vec<RankBinding> = if bound {
        let found = match placement.roles.get(replica.role_id.as_str()) {
            Some(binding) => binding.ranks_for_replica(replica.replica_index as usize),
            None => None,
        };
        match found {
            Some(ranks) => ranks,
            None => {
                return invalid_config(
                    cat2(
                        "placement does not assign ranks for replica ",
                        debug(replica.id.as_str()).as_str(),
                    ),
                );
            },
        }
    } else {
        &none
    };
    assert(ranks@ =~= replica_ranks(*placement, *replica));
    let assigned: u128 = count_devices(ranks.as_slice());
    if bound && assigned != replica.device_count as u128 {
        return invalid_config(
            cat6(
                "placement assigns ",
                to_decimal_wide(assigned).as_str(),
                " devices to replica ",
                debug(replica.id.as_str()).as_str(),
                ", which requires ",
                to_decimal(replica.device_count as u64).as_str(),
            ),
        );
    }
    let count: usize = if bound { ranks.len() } else { 1 };
    if count as u64 > 0x1_0000_0000 {
        return invalid_config(
            cat3("replica ", debug(replica.id.as_str()).as_str(), " has too many ranks"),
        );
    }
    let entry = process_id(replica.id.as_str(), 0, count);
    let mut out: Vec<ProcessRequirement<'a>> = Vec::new();
    let mut rank: usize = 0;
    while rank < count
        invariant
            rank <= count <= 0x1_0000_0000,
            k < plan.replicas@.len(),
            *replica == plan.replicas@[k as int],
            bound == explicit(*placement),
            ranks@ == replica_ranks(*placement, *replica),
            count == rank_count(*placement, *replica),
            bound ==> ranks@.len() == count && devices_bound(ranks@) == replica.device_count,
            Some(*role) == (match role_index(plan.roles@, replica.role_id@) {
                Some(i) => Some(plan.roles@[i]),
                None => None,
            }),
            entry@ == process_id_text(replica.id@, 0, count as nat),
            out@.len() == rank,
            forall|j: int|
                0 <= j < rank ==> process_is(
                    #[trigger] out@[j],
                    *plan,
                    *placement,
                    *escapes,
                    *role_render_inputs,
                    k as int,
                    j,
                ),
        decreases count - rank,
    {
        let number: u32 = rank as u32;
        let mut ports = copy_list(replica.ports.as_slice());
        if rank == 0 && count > 1 {
            let mut more = copy_list(replica.primary_ports.as_slice());
            ports.append(&mut more);
        }
        let mut dependencies: Vec<String> = Vec::new();
        if rank != 0 {
            dependencies.push(entry.clone());
            assert(texts(dependencies@) =~= seq![entry@]);
        } else {
            assert(texts(dependencies@) =~= Seq::empty());
        }
        let inputs = match role_render_inputs.get(replica.role_id.as_str()) {
            Some(inputs) => copy_render_inputs(inputs.as_slice()),
            None => Vec::new(),
        };
        let (device_count, fixed): (u32, Option<FixedDeviceAssignment>) = if bound {
            proof {
                lemma_devices_bound(ranks@, rank as int);
            }
            let binding = &ranks[rank];
            (
                binding.devices.len() as u32,
                Some(
                    FixedDeviceAssignment {
                        machine: binding.machine.clone(),
                        devices: copy_devices(binding.devices.as_slice()),
                        endpoint_port: binding.endpoint_port,
                    },
                ),
            )
        } else {
            (replica.device_count, None)
        };
        out.push(
            ProcessRequirement {
                id: process_id(replica.id.as_str(), number, count),
                identity: ProcessRequirementIdentity::ModelRank {
                    role,
                    replica,
                    rank: number,
                    links: links_for_node(plan.links.as_slice(), replica.role_id.as_str()),
                    render_inputs: inputs,
                },
                device_count,
                ports,
                readiness: if rank == 0 {
                    &replica.primary_readiness
                } else {
                    &replica.worker_readiness
                },
                launch_dependencies: dependencies,
                capture_target: pending_capture(replica, entry.as_str(), escapes),
                fixed_devices: fixed,
            },
        );
        assert(process_is(
            out@[rank as int],
            *plan,
            *placement,
            *escapes,
            *role_render_inputs,
            k as int,
            rank as int,
        ));
        rank += 1;
    }
    Ok(out)
}

/// Where the processes of the replica at a position begin.
pub open spec fn process_offset(
    replicas: Seq<ServeReplicaRequirement>,
    placement: PlacementBinding,
    k: int,
) -> nat
    decreases k,
{
    if k <= 0 {
        0
    } else {
        process_offset(replicas, placement, k - 1) + rank_count(placement, replicas[k - 1])
    }
}

/// The list holds, from its offset on, the processes of the replica at a position.
pub open spec fn expanded(
    out: Seq<ProcessRequirement>,
    plan: PlanServeResult,
    placement: PlacementBinding,
    escapes: EffectiveEscapes,
    role_render_inputs: Dict<Vec<SuppliedRenderInput>>,
    k: int,
) -> bool {
    let from = process_offset(plan.replicas@, placement, k);
    let count = rank_count(placement, plan.replicas@[k]);
    &&& from + count <= out.len()
    &&& forall|rank: int|
        0 <= rank < count ==> process_is(
            out[from + rank],
            plan,
            placement,
            escapes,
            role_render_inputs,
            k,
            #[trigger] rank_mark(rank),
        )
}

/// The rank itself; names it in statements about all ranks.
pub open spec fn rank_mark(rank: int) -> int {
    rank
}

/// Why the plan cannot be expanded under the placement.
pub open spec fn expand_fault(
    integration: Seq<char>,
    plan: PlanServeResult,
    placement: PlacementBinding,
) -> Option<Seq<char>> {
    or_fault(
        placement_fault(plan, placement),
        first_some(plan.replicas@.len(), expansion_fault(integration, plan, placement)),
    )
}

/// One process for each rank of each replica, in the order of the plan: the
/// first rank of a replica is its entry, and the others depend on it.
pub fn expand_replica_requirements<'a>(
    integration: &str,
    plan: &'a PlanServeResult,
    placement: &PlacementBinding,
    escapes: &'a EffectiveEscapes,
    role_render_inputs: &Dict<Vec<SuppliedRenderInput>>,
) -> (r: Result<Vec<ProcessRequirement<'a>>, InferlabError>)
    requires
        forall|i: int|
            0 <= i < plan.replicas@.len() ==> (#[trigger] plan.replicas@[i]).replica_index
                < u32::MAX,
    ensures
        match expand_fault(integration@, *plan, *placement) {
            Some(text) => refuses(r, text),
            None => {
                &&& r is Ok
                &&& r->Ok_0@.len() == process_offset(
                    plan.replicas@,
                    *placement,
                    plan.replicas@.len() as int,
                )
                &&& forall|k: int|
                    0 <= k < plan.replicas@.len() ==> #[trigger] expanded(
                        r->Ok_0@,
                        *plan,
                        *placement,
                        *escapes,
                        *role_render_inputs,
                        k,
                    )
            },
        },
{
    match check_placement(plan, placement) {
        Err(error) => {
            return Err(error);
        },
        Ok(()) => {},
    }
    let ghost f = expansion_fault(integration@, *plan, *placement);
    let mut out: Vec<ProcessRequirement<'a>> = Vec::new();
    let mut k: usize = 0;
    while k < plan.replicas.len()
        invariant
            k <= plan.replicas@.len(),
            f == expansion_fault(integration@, *plan, *placement),
            placement_fault(*plan, *placement) is None,
            first_some(k as nat, f) is None,
            out@.len() == process_offset(plan.replicas@, *placement, k as int),
            forall|j: int|
                0 <= j < k ==> #[trigger] expanded(
                    out@,
                    *plan,
                    *placement,
                    *escapes,
                    *role_render_inputs,
                    j,
                ),
        decreases plan.replicas@.len() - k,
    {
        let ghost before = out@;
        match expand_replica(integration, plan, placement, escapes, role_render_inputs, k) {
            Err(error) => {
                proof {
                    lemma_first_some_stays((k + 1) as nat, plan.replicas@.len(), f);
                }
                return Err(error);
            },
            Ok(ranks) => {
                let mut more = ranks;
                let ghost added = more@;
                out.append(&mut more);
                proof {
                    assert(out@ =~= before + added);
                    assert forall|j: int| 0 <= j < k + 1 implies #[trigger] expanded(
                        out@,
                        *plan,
                        *placement,
                        *escapes,
                        *role_render_inputs,
                        j,
                    ) by {
                        let from = process_offset(plan.replicas@, *placement, j);
                        let count = rank_count(*placement, plan.replicas@[j]);
                        if j < k {
                            assert(expanded(
                                before,
                                *plan,
                                *placement,
                                *escapes,
                                *role_render_inputs,
                                j,
                            ));
                            assert forall|rank: int| 0 <= rank < count implies process_is(
                                out@[from + rank],
                                *plan,
                                *placement,
                                *escapes,
                                *role_render_inputs,
                                j,
                                #[trigger] rank_mark(rank),
                            ) by {
                                assert(out@[from + rank] == before[from + rank]);
                            }
                        } else {
                            assert forall|rank: int| 0 <= rank < count implies process_is(
                                out@[from + rank],
                                *plan,
                                *placement,
                                *escapes,
                                *role_render_inputs,
                                j,
                                #[trigger] rank_mark(rank),
                            ) by {
                                assert(out@[from + rank] == added[rank]);
                            }
                        }
                    }
                }
            },
        }
        k += 1;
    }
    Ok(out)
}

// ---------------------------------------------------------------------------
// Dependencies and the gateway

/// One of the first processes has the id.
pub open spec fn named_before(processes: Seq<ProcessRequirement>, n: int, id: Seq<char>) -> bool {
    exists|j: int| 0 <= j < n && (#[trigger] processes[j]).id@ == id
}

/// The dependency at a position is a repetition or no process up to this one.
pub open spec fn dependency_fault(
    integration: Seq<char>,
    processes: Seq<ProcessRequirement>,
    i: int,
) -> spec_fn(int) -> Option<Seq<char>> {
    |d: int|
        {
            let dependencies = processes[i].launch_dependencies@;
            let dependency = dependencies[d]@;
            if lists(dependencies.take(d), dependency) || !named_before(
                processes,
                i + 1,
                dependency,
            ) {
                Some(
                    "integration "@ + debug_text(integration) + " process "@ + debug_text(
                        processes[i].id@,
                    ) + " has an invalid or unordered launch dependency "@ + debug_text(dependency),
                )
            } else {
                None
            }
        }
}

/// Why the process at a position is refused.
pub open spec fn launch_fault(
    integration: Seq<char>,
    processes: Seq<ProcessRequirement>,
) -> spec_fn(int) -> Option<Seq<char>> {
    |i: int|
        {
            if processes[i].id@.len() == 0 || named_before(processes, i, processes[i].id@) {
                Some(
                    "integration "@ + debug_text(integration)
                        + " returned a duplicate or empty process id"@,
                )
            } else {
                first_some(
                    processes[i].launch_dependencies@.len(),
                    dependency_fault(integration, processes, i),
                )
            }
        }
}

fn check_named_before(processes: &[ProcessRequirement], n: usize, id: &str) -> (r: bool)
    requires
        n <= processes@.len(),
    ensures
        r == named_before(processes@, n as int, id@),
{
    let mut j: usize = 0;
    while j < n
        invariant
            j <= n <= processes@.len(),
            forall|k: int| 0 <= k < j ==> (#[trigger] processes@[k]).id@ != id@,
        decreases n - j,
    {
        if same(processes[j].id.as_str(), id) {
            assert(processes@[j as int].id@ == id@);
            return true;
        }
        j += 1;
    }
    false
}

fn check_dependencies(integration: &str, processes: &[ProcessRequirement], i: usize) -> (r: Result<
    (),
    InferlabError,
>)
    requires
        i < processes@.len(),
    ensures
        answers(
            r,
            first_some(
                processes@[i as int].launch_dependencies@.len(),
                dependency_fault(integration@, processes@, i as int),
            ),
        ),
{
    let ghost f = dependency_fault(integration@, processes@, i as int);
    assert(i < processes.len());
    let process = &processes[i];
    let through: usize = i + 1;
    let mut seen: Vec<String> = Vec::new();
    let mut d: usize = 0;
    while d < process.launch_dependencies.len()
        invariant
            i < processes@.len(),
            through == i + 1,
            *process == processes@[i as int],
            d <= process.launch_dependencies@.len(),
            f == dependency_fault(integration@, processes@, i as int),
            first_some(d as nat, f) is None,
            seen@ =~= process.launch_dependencies@.take(d as int),
        decreases process.launch_dependencies@.len() - d,
    {
        let dependency = process.launch_dependencies[d].as_str();
        if list_contains(seen.as_slice(), dependency) || !check_named_before(
            processes,
            through,
            dependency,
        ) {
            proof {
                lemma_first_some_stays((d + 1) as nat, process.launch_dependencies@.len(), f);
            }
            return invalid_config(
                cat6(
                    "integration ",
                    debug(integration).as_str(),
                    " process ",
                    debug(process.id.as_str()).as_str(),
                    " has an invalid or unordered launch dependency ",
                    debug(dependency).as_str(),
                ),
            );
        }
        seen.push(process.launch_dependencies[d].clone());
        d += 1;
    }
    Ok(())
}

/// Refuses a process without a name of its own, and a dependency that is
/// repeated or does not come before.
pub fn validate_launch_dependencies(integration: &str, processes: &[ProcessRequirement]) -> (r:
    Result<(), InferlabError>)
    ensures
        answers(r, first_some(processes@.len(), launch_fault(integration@, processes@))),
{
    let ghost f = launch_fault(integration@, processes@);
    let mut i: usize = 0;
    while i < processes.len()
        invariant
            i <= processes@.len(),
            f == launch_fault(integration@, processes@),
            first_some(i as nat, f) is None,
        decreases processes@.len() - i,
    {
        let process = &processes[i];
        if process.id.as_str().is_empty() || check_named_before(processes, i, process.id.as_str()) {
            proof {
                lemma_first_some_stays((i + 1) as nat, processes@.len(), f);
            }
            return invalid_config(
                cat3(
                    "integration ",
                    debug(integration).as_str(),
                    " returned a duplicate or empty process id",
                ),
            );
        }
        match check_dependencies(integration, processes, i) {
            Err(error) => {
                proof {
                    lemma_first_some_stays((i + 1) as nat, processes@.len(), f);
                }
                return Err(error);
            },
            Ok(()) => {},
        }
        i += 1;
    }
    Ok(())
}

/// Accepted processes can be launched in their order: ids are unique, and every
/// dependency is the process itself or one that comes before it.
pub proof fn law_dependencies_come_first(
    integration: Seq<char>,
    processes: Seq<ProcessRequirement>,
    i: int,
    d: int,
)
    requires
        first_some(processes.len(), launch_fault(integration, processes)) is None,
        0 <= i < processes.len(),
        0 <= d < processes[i].launch_dependencies@.len(),
    ensures
        !named_before(processes, i, processes[i].id@),
        exists|j: int|
            0 <= j <= i && (#[trigger] processes[j]).id@ == processes[i].launch_dependencies@[d]@,
{
    let faults = launch_fault(integration, processes);
    lemma_first_some_none(processes.len(), faults);
    assert(faults(i) is None);
    let within = dependency_fault(integration, processes, i);
    lemma_first_some_none(processes[i].launch_dependencies@.len(), within);
    assert(within(d) is None);
}

/// The process is a frontend.
pub open spec fn frontend(processes: Seq<ProcessRequirement>, i: int) -> bool {
    processes[i].identity is Frontend
}

/// The number of frontends among the first processes.
pub open spec fn frontend_count(processes: Seq<ProcessRequirement>) -> nat
    decreases processes.len(),
{
    if processes.len() == 0 {
        0
    } else {
        frontend_count(processes.drop_last()) + if processes.last().identity is Frontend {
            1nat
        } else {
            0nat
        }
    }
}

/// The process that runs the gateway, where there is one.
pub fn resolved_gateway_process_id<'b>(requirements: &'b [ProcessRequirement]) -> (r: Result<
    Option<&'b str>,
    InferlabError,
>)
    ensures
        match r {
            Ok(None) => frontend_count(requirements@) == 0,
            Ok(Some(id)) => frontend_count(requirements@) == 1 && exists|i: int|
                0 <= i < requirements@.len() && frontend(requirements@, i) && id@ == (
                #[trigger] requirements@[i]).id@,
            Err(_) => frontend_count(requirements@) > 1 && refuses(
                r,
                "resolved topology binds the Gateway component to multiple processes"@,
            ),
        },
{
    let mut found: Option<usize> = None;
    let mut i: usize = 0;
    assert(requirements@.take(0) =~= Seq::empty());
    while i < requirements.len()
        invariant
            i <= requirements@.len(),
            match found {
                None => frontend_count(requirements@.take(i as int)) == 0,
                Some(k) => k < i && frontend(requirements@, k as int) && frontend_count(
                    requirements@.take(i as int),
                ) == 1,
            },
        decreases requirements@.len() - i,
    {
        assert(requirements@.take(i + 1).drop_last() =~= requirements@.take(i as int));
        match &requirements[i].identity {
            ProcessRequirementIdentity::Frontend { .. } => {
                if found.is_some() {
                    proof {
                        lemma_frontend_count_grows(requirements@, i + 1);
                    }
                    return invalid_config(
                        "resolved topology binds the Gateway component to multiple processes".to_owned(),
                    );
                }
                found = Some(i);
            },
            ProcessRequirementIdentity::ModelRank { .. } => {},
        }
        i += 1;
    }
    assert(requirements@.take(i as int) =~= requirements@);
    match found {
        None => Ok(None),
        Some(k) => Ok(Some(requirements[k].id.as_str())),
    }
}

/// More processes hold no fewer frontends.
proof fn lemma_frontend_count_grows(processes: Seq<ProcessRequirement>, n: int)
    requires
        0 <= n <= processes.len(),
    ensures
        frontend_count(processes.take(n)) <= frontend_count(processes),
    decreases processes.len() - n,
{
    if n < processes.len() {
        assert(processes.take(n + 1).drop_last() =~= processes.take(n));
        lemma_frontend_count_grows(processes, n + 1);
    } else {
        assert(processes.take(n) =~= processes);
    }
}

// ---------------------------------------------------------------------------
// Escapes as declared

/// The profiler declarations of a server and its roles.
pub struct DeclaredEscapes {
    pub profiler: ProfilerDefinition,
    pub roles: Dict<ProfilerDefinition>,
}

/// The escapes that a server declares.
pub struct ProfilerEscapesPlan<'a> {
    pub mechanism: Option<CaptureMechanism>,
    pub common: &'a NsysEscapes,
    pub roles: Vec<(String, &'a NsysEscapes)>,
}

/// The roles that declare escapes, with them, in their order.
pub open spec fn declared_roles(entries: Seq<(String, ProfilerDefinition)>) -> Seq<
    (String, NsysEscapes),
>
    decreases entries.len(),
{
    if entries.len() == 0 {
        Seq::empty()
    } else {
        let before = declared_roles(entries.drop_last());
        let (id, profiler) = entries.last();
        if profiler.nsys.blank() {
            before
        } else {
            before.push((id, profiler.nsys))
        }
    }
}

/// The entries that a list refers to.
pub open spec fn referred_escapes(list: Seq<(String, &NsysEscapes)>) -> Seq<(String, NsysEscapes)> {
    list.map_values(|entry: (String, &NsysEscapes)| (entry.0, *entry.1))
}

/// The escapes that a server and its roles declare; nothing where none does.
pub fn profiler_escapes_plan<'a>(server: &'a DeclaredEscapes) -> (r: Option<ProfilerEscapesPlan<'a>>)
    ensures
        match r {
            None => server.profiler.blank() && declared_roles(server.roles.entries@).len() == 0,
            Some(plan) => {
                &&& !(server.profiler.blank() && declared_roles(server.roles.entries@).len() == 0)
                &&& plan.mechanism == server.profiler.mechanism
                &&& *plan.common == server.profiler.nsys
                &&& referred_escapes(plan.roles@) == declared_roles(server.roles.entries@)
            },
        },
{
    let entries = &server.roles.entries;
    let mut roles: Vec<(String, &'a NsysEscapes)> = Vec::new();
    let mut i: usize = 0;
    assert(referred_escapes(roles@) =~= declared_roles(entries@.take(0)));
    while i < entries.len()
        invariant
            *entries == server.roles.entries,
            i <= entries@.len(),
            referred_escapes(roles@) =~= declared_roles(entries@.take(i as int)),
        decreases entries@.len() - i,
    {
        let ghost before = referred_escapes(roles@);
        assert(entries@.take(i + 1).drop_last() =~= entries@.take(i as int));
        if !entries[i].1.nsys.is_empty() {
            roles.push((entries[i].0.clone(), &server.roles.entries[i].1.nsys));
            assert(referred_escapes(roles@) =~= before.push((entries@[i as int].0, entries@[i as int].1.nsys)));
        }
        i += 1;
    }
    assert(entries@.take(i as int) =~= entries@);
    assert(referred_escapes(roles@).len() == roles@.len());
    if server.profiler.is_empty() && roles.len() == 0 {
        return None;
    }
    Some(
        ProfilerEscapesPlan {
            mechanism: server.profiler.mechanism,
            common: &server.profiler.nsys,
            roles,
        },
    )
}

/// The first rank of a replica leads it: it is awaited as the primary, depends on
/// nothing and holds the primary ports beside the others. Every other rank is awaited
/// as a worker and is launched after the first.
pub proof fn law_first_rank_leads_its_replica(
    p: ProcessRequirement,
    plan: PlanServeResult,
    placement: PlacementBinding,
    escapes: EffectiveEscapes,
    role_render_inputs: Dict<Vec<SuppliedRenderInput>>,
    k: int,
    rank: int,
    first: ProcessRequirement,
)
    requires
        process_is(p, plan, placement, escapes, role_render_inputs, k, rank),
        process_is(first, plan, placement, escapes, role_render_inputs, k, 0),
        0 <= rank,
    ensures
        rank == 0 ==> p.launch_dependencies@.len() == 0 && *p.readiness
            == plan.replicas@[k].primary_readiness,
        rank > 0 ==> p.launch_dependencies@.len() == 1 && p.launch_dependencies@[0]@ == first.id@
            && *p.readiness == plan.replicas@[k].worker_readiness && p.ports@
            == plan.replicas@[k].ports@,
        rank == 0 && rank_count(placement, plan.replicas@[k]) > 1 ==> p.ports@
            == plan.replicas@[k].ports@ + plan.replicas@[k].primary_ports@,
        p.identity matches ProcessRequirementIdentity::ModelRank { replica, rank: number, .. } && number
            == rank && *replica == plan.replicas@[k],
        p.capture_target matches Some(target) ==> target.replica_entry_process_id@ == first.id@,
{
    if rank > 0 {
        assert(texts(p.launch_dependencies@)[0] == p.launch_dependencies@[0]@);
        assert(texts(p.launch_dependencies@).len() == p.launch_dependencies@.len());
    } else {
        assert(texts(p.launch_dependencies@).len() == p.launch_dependencies@.len());
    }
}

/// Under a placement that binds ranks, a rank is bound to the machine, devices and
/// endpoint port that the placement gives it; under any other, a replica is one
/// process that asks for all devices of the replica and is bound to none.
pub proof fn law_rank_is_bound_as_the_placement_says(
    integration: Seq<char>,
    p: ProcessRequirement,
    plan: PlanServeResult,
    placement: PlacementBinding,
    escapes: EffectiveEscapes,
    role_render_inputs: Dict<Vec<SuppliedRenderInput>>,
    k: int,
    rank: int,
)
    requires
        process_is(p, plan, placement, escapes, role_render_inputs, k, rank),
        expansion_fault(integration, plan, placement)(k) is None,
        0 <= rank < rank_count(placement, plan.replicas@[k]),
    ensures
        ({
            let replica = plan.replicas@[k];
            let by_rank = exists|i: int|
                0 <= i < placement.roles.entries@.len() && (
                #[trigger] placement.roles.entries@[i]).1 is Replicas;
            &&& by_rank ==> (placement.roles.at(replica.role_id@) matches Some(binding) && (
            binding.ranks_at(replica.replica_index as int) matches Some(ranks) && {
                &&& rank < ranks@.len()
                &&& p.fixed_devices matches Some(fixed) && fixed.machine == ranks@[rank].machine
                    && fixed.devices@ == ranks@[rank].devices@ && fixed.endpoint_port
                    == ranks@[rank].endpoint_port
                &&& p.device_count == ranks@[rank].devices@.len()
            }))
            &&& !by_rank ==> rank == 0 && p.fixed_devices is None && p.device_count
                == replica.device_count && p.id@ == replica.id@
        }),
{
}

/// The ranks of a replica have ids of their own, all of which begin with the id of
/// the replica; the only rank of a replica has the id of the replica.
pub proof fn law_ranks_have_ids_of_their_own(replica_id: Seq<char>, a: nat, b: nat, rank_count: nat)
    ensures
        rank_count == 1 ==> process_id_text(replica_id, a, rank_count) == replica_id,
        rank_count != 1 && a != b ==> process_id_text(replica_id, a, rank_count) != process_id_text(
            replica_id,
            b,
            rank_count,
        ),
        process_id_text(replica_id, a, rank_count).take(replica_id.len() as int) == replica_id,
{
    assert(process_id_text(replica_id, a, rank_count).take(replica_id.len() as int) =~= replica_id);
    if rank_count != 1 && a != b {
        let head = replica_id + "-rank-"@;
        crate::text::law_padding_keeps_the_number(a, 3);
        crate::text::law_padding_keeps_the_number(b, 3);
        let one = process_id_text(replica_id, a, rank_count);
        let other = process_id_text(replica_id, b, rank_count);
        if one == other {
            assert(one.skip(head.len() as int) =~= padded(decimal(a), 3));
            assert(other.skip(head.len() as int) =~= padded(decimal(b), 3));
        }
    }
}

/// The links of a node are exactly those that have it at one of their ends.
pub proof fn law_links_of_a_node_are_those_at_it(
    links: Seq<ServeRoleLink>,
    node: Seq<char>,
    link: ServeRoleLink,
)
    ensures
        links_of(links, node).contains(link) <==> links.contains(link) && match link {
            ServeRoleLink::RequestRouting { source, targets } => source@ == node || exists|i: int|
                0 <= i < targets@.len() && (#[trigger] targets@[i])@ == node,
            ServeRoleLink::KvTransfer { source, target, .. } => source@ == node || target@ == node,
            ServeRoleLink::Bootstrap { source, target, .. } => source@ == node || target@ == node,
            ServeRoleLink::SideChannel { source, target, .. } => source@ == node || target@ == node,
        },
{
    let p = |link: ServeRoleLink| touches(link, node);
    let kept = links.filter(p);
    if kept.contains(link) {
        let i = choose|i: int| 0 <= i < kept.len() && kept[i] == link;
        links.lemma_filter_contains_rev(p, link);
        links.lemma_filter_pred(p, i);
    }
    if links.contains(link) && touches(link, node) {
        let i = choose|i: int| 0 <= i < links.len() && links[i] == link;
        links.lemma_filter_contains(p, i);
    }
}

/// A name whose span is known is the role of a replica, and the span is past the
/// index of every replica of the role.
proof fn lemma_role_spans(replicas: Seq<ServeReplicaRequirement>, role: Seq<char>)
    requires
        forall|i: int|
            0 <= i < replicas.len() ==> (#[trigger] replicas[i]).replica_index < u32::MAX,
    ensures
        crate::dict::in_order(role_spans(replicas)),
        lookup(role_spans(replicas), role) is Some <==> exists|i: int|
            0 <= i < replicas.len() && (#[trigger] replicas[i]).role_id@ == role,
        forall|i: int|
            0 <= i < replicas.len() && (#[trigger] replicas[i]).role_id@ == role ==> lookup(
                role_spans(replicas),
                role,
            )->0 > replicas[i].replica_index,
    decreases replicas.len(),
{
    if replicas.len() > 0 {
        let fewer = replicas.drop_last();
        let last = replicas.last();
        assert(replicas[replicas.len() - 1] == last);
        assert forall|i: int| 0 <= i < fewer.len() implies (#[trigger] fewer[i]).replica_index
            < u32::MAX by {
            assert(fewer[i] == replicas[i]);
        }
        lemma_role_spans(fewer, role);
        lemma_role_spans(fewer, last.role_id@);
        let before = role_spans(fewer);
        let known: int = match lookup(before, last.role_id@) {
            Some(count) => count as int,
            None => 0,
        };
        let span: int = if known > last.replica_index + 1 {
            known
        } else {
            last.replica_index + 1
        };
        crate::dict::lemma_with_entry_in_order(before, last.role_id, span as u32);
        crate::dict::lemma_with_entry_lookup(before, last.role_id, span as u32, role);
        if role == last.role_id@ {
            assert(replicas[replicas.len() - 1].role_id@ == role);
            assert forall|i: int|
                0 <= i < replicas.len() && (#[trigger] replicas[i]).role_id@ == role implies lookup(
                role_spans(replicas),
                role,
            )->0 > replicas[i].replica_index by {
                if i < fewer.len() {
                    assert(fewer[i] == replicas[i]);
                }
            }
        } else {
            if lookup(before, role) is Some {
                let i = choose|i: int| 0 <= i < fewer.len() && (#[trigger] fewer[i]).role_id@ == role;
                assert(replicas[i].role_id@ == role);
            }
            assert forall|i: int|
                0 <= i < replicas.len() && (#[trigger] replicas[i]).role_id@ == role implies lookup(
                role_spans(replicas),
                role,
            ) is Some && lookup(role_spans(replicas), role)->0 > replicas[i].replica_index by {
                assert(i < fewer.len());
                assert(fewer[i] == replicas[i]);
            }
        }
    }
}

/// An accepted placement names only roles that the plan has: that of a replica, or
/// the gateway where there is one. Where it binds ranks, it binds every replica.
pub proof fn law_placement_fits_its_plan(
    integration: Seq<char>,
    plan: PlanServeResult,
    placement: PlacementBinding,
    i: int,
    k: int,
)
    requires
        expand_fault(integration, plan, placement) is None,
        forall|j: int|
            0 <= j < plan.replicas@.len() ==> (#[trigger] plan.replicas@[j]).replica_index
                < u32::MAX,
        0 <= i < placement.roles.entries@.len(),
        0 <= k < plan.replicas@.len(),
    ensures
        (exists|j: int|
            0 <= j < plan.replicas@.len() && (#[trigger] plan.replicas@[j]).role_id@
                == placement.roles.entries@[i].0@) || (placement.roles.entries@[i].0@ == "gateway"@
            && plan.gateway is Some),
        explicit(placement) ==> ranks_bound(placement, plan.replicas@[k]) is Some && devices_bound(
            ranks_bound(placement, plan.replicas@[k])->0,
        ) == plan.replicas@[k].device_count,
{
    let role = placement.roles.entries@[i].0@;
    crate::search::lemma_first_some_none(
        placement.roles.entries@.len(),
        placed_role_fault(plan, placement),
    );
    assert(placed_role_fault(plan, placement)(i) is None);
    lemma_role_spans(plan.replicas@, role);
    crate::search::lemma_first_some_none(
        plan.replicas@.len(),
        expansion_fault(integration, plan, placement),
    );
    assert(expansion_fault(integration, plan, placement)(k) is None);
}

/// The devices that ranks hold together are those of the ranks, added up.
pub proof fn law_devices_bound_add_up(some: Seq<RankBinding>, others: Seq<RankBinding>)
    ensures
        devices_bound(some + others) == devices_bound(some) + devices_bound(others),
        some.len() == 1 ==> devices_bound(some) == some[0].devices@.len(),
    decreases others.len(),
{
    if others.len() == 0 {
        assert(some + others =~= some);
    } else {
        assert((some + others).drop_last() =~= some + others.drop_last());
        law_devices_bound_add_up(some, others.drop_last());
    }
    if some.len() == 1 {
        assert(devices_bound(some.drop_last()) == 0);
    }
}

/// A role is told to declare escapes exactly where it declares any.
pub proof fn law_roles_with_escapes_are_told(
    entries: Seq<(String, ProfilerDefinition)>,
    id: String,
    nsys: NsysEscapes,
)
    ensures
        declared_roles(entries).contains((id, nsys)) <==> exists|i: int|
            0 <= i < entries.len() && (#[trigger] entries[i]).0 == id && entries[i].1.nsys == nsys
                && !entries[i].1.nsys.blank(),
    decreases entries.len(),
{
    if entries.len() > 0 {
        let fewer = entries.drop_last();
        let before = declared_roles(fewer);
        let all = declared_roles(entries);
        let last = entries.len() - 1;
        law_roles_with_escapes_are_told(fewer, id, nsys);
        if before.contains((id, nsys)) {
            let i = choose|i: int|
                0 <= i < fewer.len() && (#[trigger] fewer[i]).0 == id && fewer[i].1.nsys == nsys
                    && !fewer[i].1.nsys.blank();
            assert(entries[i] == fewer[i]);
            let k = choose|k: int| 0 <= k < before.len() && before[k] == (id, nsys);
            assert(all[k] == (id, nsys));
        }
        if all.contains((id, nsys)) && !before.contains((id, nsys)) {
            let k = choose|k: int| 0 <= k < all.len() && all[k] == (id, nsys);
            assert(k == before.len()) by {
                if k < before.len() {
                    assert(before[k] == (id, nsys));
                }
            }
            assert(entries[last].0 == id);
        }
        if exists|i: int|
            0 <= i < entries.len() && (#[trigger] entries[i]).0 == id && entries[i].1.nsys == nsys
                && !entries[i].1.nsys.blank() {
            let i = choose|i: int|
                0 <= i < entries.len() && (#[trigger] entries[i]).0 == id && entries[i].1.nsys
                    == nsys && !entries[i].1.nsys.blank();
            if i < last {
                assert(fewer[i] == entries[i]);
            } else {
                assert(all[before.len() as int] == (id, nsys));
            }
        }
    } else {
        assert(declared_roles(entries) =~= Seq::empty());
    }
}

/// A rank is a target of the capture that its replica declares, of that mechanism and with
/// those actions, for the devices of the replica; the escapes of its role prevail over the
/// common ones. A rank of a replica that declares none is no target.
pub proof fn law_capture_target_is_that_of_its_replica(
    p: ProcessRequirement,
    plan: PlanServeResult,
    placement: PlacementBinding,
    escapes: EffectiveEscapes,
    role_render_inputs: Dict<Vec<SuppliedRenderInput>>,
    k: int,
    rank: int,
)
    requires
        process_is(p, plan, placement, escapes, role_render_inputs, k, rank),
    ensures
        p.capture_target is Some <==> plan.replicas@[k].capture_target is Some,
        plan.replicas@[k].capture_target matches Some(target) ==> (
        p.capture_target matches Some(pending) && {
            &&& pending.mechanism == target.mechanism
            &&& pending.window_control_endpoint == target.window_control.endpoint
            &&& *pending.start == target.window_control.start
            &&& *pending.stop == target.window_control.stop
            &&& pending.device_count == plan.replicas@[k].device_count
            &&& escapes.roles.at(plan.replicas@[k].role_id@) matches Some(own) ==> *pending.escapes
                == own
            &&& escapes.roles.at(plan.replicas@[k].role_id@) is None ==> *pending.escapes
                == escapes.common
        }),
{
}

/// A rank is rendered as one of its own role: with the role of that id, the links at it and
/// the inputs of that role, or none.
pub proof fn law_rank_is_rendered_with_its_own_role(
    p: ProcessRequirement,
    plan: PlanServeResult,
    placement: PlacementBinding,
    escapes: EffectiveEscapes,
    role_render_inputs: Dict<Vec<SuppliedRenderInput>>,
    k: int,
    rank: int,
)
    requires
        process_is(p, plan, placement, escapes, role_render_inputs, k, rank),
    ensures
        p.identity matches ProcessRequirementIdentity::ModelRank {
            role,
            links,
            render_inputs,
            ..
        } && {
            &&& role.id@ == plan.replicas@[k].role_id@
            &&& plan.roles@.contains(*role)
            &&& referred(links@) == links_of(plan.links@, plan.replicas@[k].role_id@)
            &&& role_render_inputs.at(plan.replicas@[k].role_id@) matches Some(inputs)
                ==> render_inputs@ == inputs@
            &&& role_render_inputs.at(plan.replicas@[k].role_id@) is None ==> render_inputs@.len()
                == 0
        },
{
    let named = crate::resolve::topology::role_is(plan.roles@, plan.replicas@[k].role_id@);
    crate::search::lemma_first_index(plan.roles@.len(), named);
}

} // verus!
