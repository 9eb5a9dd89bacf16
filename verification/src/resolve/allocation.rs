//! Allocation: machines, devices, ports and caches for the processes of a plan.

use crate::dict::{with_entry, Dict};
use crate::digest::{sha256_hex, sha256_text};
use crate::error::{refuses, InferlabError};
use crate::paths::{join_path, joined_path};
use crate::protocol::{
    EndpointAssignment, FrontendComponents, FrontendProcessRole, ReadinessProbe, ServeRoleKind,
    TargetEndpointScheme, TargetRegistryProbe,
};
use crate::resolve::requirements::{named_before, ProcessRequirement, ProcessRequirementIdentity};
use crate::search::{first_index, first_some, lemma_first_index, lemma_first_index_is};
use crate::text::{
    cat2, cat3, cat4, cat5, cat7, copy_list, debug, debug_text, decimal, list_contains, lists,
    optional_text, same, texts, to_decimal,
};
use crate::workspace::{
    LaunchBinding, MachineBinding, ModelWeightBinding, PlacementBinding, PlacementRoleBinding,
};
use vstd::prelude::*;
use vstd::string::*;
use vstd::utf8::{encode_utf8, encode_utf8_decode_utf8};

verus! {

// ---------------------------------------------------------------------------
// Runtime caches

/// Where the storage root of a runtime cache comes from.
#[derive(Clone, Copy, Debug, PartialEq, Eq, Structural)]
pub enum RuntimeCacheRootSource {
    WorkspaceDefault,
    MachineBinding,
}

/// What keeps runtime caches apart.
#[derive(Clone, Debug)]
pub struct RuntimeCacheNamespacePlan {
    pub workspace_source_digest: String,
    pub pixi_environment: String,
    pub image_id: Option<String>,
    pub machine: String,
    pub process: String,
}

/// The runtime cache of a process.
#[derive(Clone, Debug)]
pub struct RuntimeCachePlan {
    pub storage_root: String,
    pub storage_root_source: RuntimeCacheRootSource,
    pub namespace: RuntimeCacheNamespacePlan,
    pub path: String,
}

/// The eight bytes of a number, the lowest first.
pub open spec fn little_endian(n: u64) -> Seq<u8> {
    seq![
        (n % 256) as u8,
        (n / 0x100 % 256) as u8,
        (n / 0x1_0000 % 256) as u8,
        (n / 0x100_0000 % 256) as u8,
        (n / 0x1_0000_0000 % 256) as u8,
        (n / 0x100_0000_0000 % 256) as u8,
        (n / 0x1_0000_0000_0000 % 256) as u8,
        (n / 0x100_0000_0000_0000 % 256) as u8,
    ]
}

/// The bytes of a text, with their number in front.
pub open spec fn framed(value: Seq<char>) -> Seq<u8> {
    little_endian(encode_utf8(value).len() as usize as u64) + encode_utf8(value)
}

/// What the key of a software environment is the digest of: the image, where
/// there is one, else the sources and the environment of the workspace.
pub open spec fn environment_key_bytes(
    source_digest: Seq<char>,
    pixi_environment: Seq<char>,
    image: Option<Seq<char>>,
) -> Seq<u8> {
    match image {
        Some(id) => framed("image-realization"@) + framed(id),
        None => framed(source_digest) + framed(pixi_environment),
    }
}

/// Appends the bytes of a text, with their number in front.
fn push_framed(out: &mut Vec<u8>, value: &str)
    ensures
        final(out)@ == old(out)@ + framed(value@),
{
    let n: u64 = value.len() as u64;
    let ghost before = out@;
    out.push((n % 256) as u8);
    out.push((n / 0x100 % 256) as u8);
    out.push((n / 0x1_0000 % 256) as u8);
    out.push((n / 0x100_0000 % 256) as u8);
    out.push((n / 0x1_0000_0000 % 256) as u8);
    out.push((n / 0x100_0000_0000 % 256) as u8);
    out.push((n / 0x1_0000_0000_0000 % 256) as u8);
    out.push((n / 0x100_0000_0000_0000 % 256) as u8);
    assert(out@ =~= before + little_endian(n));
    let mut bytes = value.as_bytes_vec();
    out.append(&mut bytes);
    assert(out@ =~= before + framed(value@));
}

/// The storage root of the caches of a machine.
pub open spec fn cache_storage_root(workspace_root: Seq<char>, machine: MachineBinding) -> Seq<
    char,
> {
    match machine.cache_root {
        Some(root) => root@,
        None => joined_path(
            match machine.workspace {
                Some(root) => root@,
                None => workspace_root,
            },
            ".inferlab/cache/runtime"@,
        ),
    }
}

/// The directory of a process's cache.
pub open spec fn cache_path(
    storage_root: Seq<char>,
    environment_key: Seq<char>,
    machine_id: Seq<char>,
    process_id: Seq<char>,
) -> Seq<char> {
    joined_path(
        joined_path(joined_path(joined_path(storage_root, "v1"@), environment_key), machine_id),
        process_id,
    )
}

/// The runtime cache of a process on a machine: its directory is keyed by the
/// software that fills it, the machine and the process.
pub open spec fn cache_is(
    cache: RuntimeCachePlan,
    workspace_root: Seq<char>,
    source_digest: Seq<char>,
    machine: MachineBinding,
    machine_id: Seq<char>,
    process_id: Seq<char>,
    pixi_environment: Seq<char>,
    image: Option<Seq<char>>,
) -> bool {
    &&& cache.storage_root@ == cache_storage_root(workspace_root, machine)
    &&& cache.storage_root_source == if machine.cache_root is Some {
        RuntimeCacheRootSource::MachineBinding
    } else {
        RuntimeCacheRootSource::WorkspaceDefault
    }
    &&& cache.namespace.workspace_source_digest@ == source_digest
    &&& cache.namespace.pixi_environment@ == pixi_environment
    &&& match (cache.namespace.image_id, image) {
        (Some(id), Some(given)) => id@ == given,
        (None, None) => true,
        _ => false,
    }
    &&& cache.namespace.machine@ == machine_id
    &&& cache.namespace.process@ == process_id
    &&& cache.path@ == cache_path(
        cache_storage_root(workspace_root, machine),
        sha256_text(environment_key_bytes(source_digest, pixi_environment, image)),
        machine_id,
        process_id,
    )
}

/// The runtime cache of a process on a machine.
pub fn runtime_cache_plan(
    workspace_root: &str,
    source_digest: &str,
    machine: &MachineBinding,
    machine_id: &str,
    process_id: &str,
    pixi_environment: &str,
    image_identity: Option<&str>,
) -> (r: RuntimeCachePlan)
    ensures
        cache_is(
            r,
            workspace_root@,
            source_digest@,
            *machine,
            machine_id@,
            process_id@,
            pixi_environment@,
            optional_text(image_identity),
        ),
{
    let (storage_root, storage_root_source) = match &machine.cache_root {
        Some(root) => (root.clone(), RuntimeCacheRootSource::MachineBinding),
        None => {
            let base = match &machine.workspace {
                Some(root) => root.as_str(),
                None => workspace_root,
            };
            (
                join_path(base, ".inferlab/cache/runtime"),
                RuntimeCacheRootSource::WorkspaceDefault,
            )
        },
    };
    let mut key_bytes: Vec<u8> = Vec::new();
    let image_id = match image_identity {
        Some(id) => {
            push_framed(&mut key_bytes, "image-realization");
            push_framed(&mut key_bytes, id);
            assert(key_bytes@ =~= framed("image-realization"@) + framed(id@));
            Some(id.to_owned())
        },
        None => {
            push_framed(&mut key_bytes, source_digest);
            push_framed(&mut key_bytes, pixi_environment);
            assert(key_bytes@ =~= framed(source_digest@) + framed(pixi_environment@));
            None
        },
    };
    let environment_key = sha256_hex(key_bytes.as_slice());
    let versioned = join_path(storage_root.as_str(), "v1");
    let keyed = join_path(versioned.as_str(), environment_key.as_str());
    let on_machine = join_path(keyed.as_str(), machine_id);
    let path = join_path(on_machine.as_str(), process_id);
    RuntimeCachePlan {
        storage_root,
        storage_root_source,
        namespace: RuntimeCacheNamespacePlan {
            workspace_source_digest: source_digest.to_owned(),
            pixi_environment: pixi_environment.to_owned(),
            image_id,
            machine: machine_id.to_owned(),
            process: process_id.to_owned(),
        },
        path,
    }
}

// ---------------------------------------------------------------------------
// Capacity

/// What earlier processes hold of a machine.
pub struct MachineAllocationUsage {
    pub devices: Vec<u32>,
    /// The ports, without repetition.
    pub ports: Vec<u16>,
}

/// The entries of a list that are not in use, in their order.
pub open spec fn unused<T>(list: Seq<T>, used: Seq<T>) -> Seq<T>
    decreases list.len(),
{
    if list.len() == 0 {
        Seq::empty()
    } else {
        let before = unused(list.drop_last(), used);
        if used.contains(list.last()) {
            before
        } else {
            before.push(list.last())
        }
    }
}

/// What is not in use is in the list, and not in use.
pub proof fn lemma_unused<T>(list: Seq<T>, used: Seq<T>)
    ensures
        forall|i: int|
            0 <= i < unused(list, used).len() ==> list.contains(#[trigger] unused(list, used)[i])
                && !used.contains(unused(list, used)[i]),
        unused(list, used).len() <= list.len(),
    decreases list.len(),
{
    if list.len() > 0 {
        lemma_unused(list.drop_last(), used);
        let before = unused(list.drop_last(), used);
        assert forall|i: int| 0 <= i < unused(list, used).len() implies list.contains(
            #[trigger] unused(list, used)[i],
        ) && !used.contains(unused(list, used)[i]) by {
            if i < before.len() {
                assert(unused(list, used)[i] == before[i]);
                let k = choose|k: int|
                    0 <= k < list.drop_last().len() && list.drop_last()[k] == before[i];
                assert(list[k] == before[i]);
            } else {
                assert(list[list.len() - 1] == list.last());
            }
        }
    }
}

fn contains_device(list: &[u32], x: u32) -> (r: bool)
    ensures
        r == list@.contains(x),
{
    let mut i: usize = 0;
    while i < list.len()
        invariant
            i <= list@.len(),
            forall|j: int| 0 <= j < i ==> list@[j] != x,
        decreases list@.len() - i,
    {
        if list[i] == x {
            assert(list@[i as int] == x);
            return true;
        }
        i += 1;
    }
    false
}

fn contains_port(list: &[u16], x: u16) -> (r: bool)
    ensures
        r == list@.contains(x),
{
    let mut i: usize = 0;
    while i < list.len()
        invariant
            i <= list@.len(),
            forall|j: int| 0 <= j < i ==> list@[j] != x,
        decreases list@.len() - i,
    {
        if list[i] == x {
            assert(list@[i as int] == x);
            return true;
        }
        i += 1;
    }
    false
}

fn unused_devices(list: &[u32], used: &[u32]) -> (r: Vec<u32>)
    ensures
        r@ == unused(list@, used@),
{
    let mut out: Vec<u32> = Vec::new();
    let mut i: usize = 0;
    while i < list.len()
        invariant
            i <= list@.len(),
            out@ == unused(list@.take(i as int), used@),
        decreases list@.len() - i,
    {
        assert(list@.take(i + 1).drop_last() =~= list@.take(i as int));
        if !contains_device(used, list[i]) {
            out.push(list[i]);
        }
        i += 1;
    }
    assert(list@.take(i as int) =~= list@);
    out
}

fn unused_ports(list: &[u16], used: &[u16]) -> (r: Vec<u16>)
    ensures
        r@ == unused(list@, used@),
{
    let mut out: Vec<u16> = Vec::new();
    let mut i: usize = 0;
    while i < list.len()
        invariant
            i <= list@.len(),
            out@ == unused(list@.take(i as int), used@),
        decreases list@.len() - i,
    {
        assert(list@.take(i + 1).drop_last() =~= list@.take(i as int));
        if !contains_port(used, list[i]) {
            out.push(list[i]);
        }
        i += 1;
    }
    assert(list@.take(i as int) =~= list@);
    out
}

/// The devices that are in use.
pub open spec fn devices_in_use(usage: Option<&MachineAllocationUsage>) -> Seq<u32> {
    match usage {
        Some(usage) => usage.devices@,
        None => Seq::empty(),
    }
}

/// The ports that are in use.
pub open spec fn ports_in_use(usage: Option<&MachineAllocationUsage>) -> Seq<u16> {
    match usage {
        Some(usage) => usage.ports@,
        None => Seq::empty(),
    }
}

/// How many devices of the machine are not in use.
pub fn free_device_count(machine: &MachineBinding, usage: Option<&MachineAllocationUsage>) -> (r:
    usize)
    ensures
        r == unused(machine.devices@, devices_in_use(usage)).len(),
{
    let none: Vec<u32> = Vec::new();
    let used: &Vec<u32> = match usage {
        Some(usage) => &usage.devices,
        None => &none,
    };
    assert(used@ =~= devices_in_use(usage));
    unused_devices(machine.devices.as_slice(), used.as_slice()).len()
}

/// The machine has room for so many devices and ports.
pub open spec fn has_room(
    machine: MachineBinding,
    devices_used: Seq<u32>,
    ports_used: Seq<u16>,
    devices: nat,
    ports: nat,
) -> bool {
    &&& unused(machine.devices@, devices_used).len() >= devices
    &&& machine.ports@.len() - ports_used.len() >= ports
}

/// Whether the machine has room for so many devices and ports.
pub fn machine_capacity(
    machine: &MachineBinding,
    usage: Option<&MachineAllocationUsage>,
    devices: usize,
    ports: usize,
) -> (r: bool)
    requires
        ports_in_use(usage).len() <= machine.ports@.len(),
    ensures
        r == has_room(
            *machine,
            devices_in_use(usage),
            ports_in_use(usage),
            devices as nat,
            ports as nat,
        ),
{
    let used_ports: usize = match usage {
        Some(usage) => usage.ports.len(),
        None => 0,
    };
    free_device_count(machine, usage) >= devices && machine.ports.len() - used_ports >= ports
}

/// The texts with one more, unless it is there already, in the order of texts.
pub open spec fn with_text(sorted: Seq<(String, ())>, name: String) -> Seq<(String, ())> {
    with_entry(sorted, name, ())
}

/// The machines that roles may be placed on, each once, in the order of names.
pub open spec fn pool_of(roles: Seq<(String, PlacementRoleBinding)>) -> Seq<(String, ())>
    decreases roles.len(),
{
    if roles.len() == 0 {
        Seq::empty()
    } else {
        let before = pool_of(roles.drop_last());
        match roles.last().1 {
            PlacementRoleBinding::Machines { machines } => pool_with(before, machines@),
            PlacementRoleBinding::Replicas { .. } => before,
        }
    }
}

/// The pool with more machines.
pub open spec fn pool_with(pool: Seq<(String, ())>, machines: Seq<String>) -> Seq<(String, ())>
    decreases machines.len(),
{
    if machines.len() == 0 {
        pool
    } else {
        with_text(pool_with(pool, machines.drop_last()), machines.last())
    }
}

/// The names of a pool.
pub open spec fn pool_names(pool: Seq<(String, ())>) -> Seq<String> {
    pool.map_values(|entry: (String, ())| entry.0)
}

/// The machines that the roles of a placement may use, each once, in the order
/// of names.
pub fn placement_machine_pool(placement: &PlacementBinding) -> (r: Vec<String>)
    ensures
        r@ == pool_names(pool_of(placement.roles.entries@)),
{
    let mut pool: Dict<()> = Dict::new();
    let entries = &placement.roles.entries;
    let mut i: usize = 0;
    assert(entries@.take(0) =~= Seq::empty());
    while i < entries.len()
        invariant
            *entries == placement.roles.entries,
            i <= entries@.len(),
            pool.entries@ == pool_of(entries@.take(i as int)),
        decreases entries@.len() - i,
    {
        assert(entries@.take(i + 1).drop_last() =~= entries@.take(i as int));
        let ghost before = pool.entries@;
        if let Some(machines) = entries[i].1.machines() {
            let mut k: usize = 0;
            assert(machines@.take(0) =~= Seq::empty());
            while k < machines.len()
                invariant
                    k <= machines@.len(),
                    pool.entries@ == pool_with(before, machines@.take(k as int)),
                decreases machines@.len() - k,
            {
                assert(machines@.take(k + 1).drop_last() =~= machines@.take(k as int));
                pool.insert(machines[k].clone(), ());
                k += 1;
            }
            assert(machines@.take(k as int) =~= machines@);
        }
        i += 1;
    }
    assert(entries@.take(i as int) =~= entries@);
    let mut out: Vec<String> = Vec::new();
    let mut j: usize = 0;
    while j < pool.entries.len()
        invariant
            j <= pool.entries@.len(),
            out@ =~= pool_names(pool.entries@).take(j as int),
        decreases pool.entries@.len() - j,
    {
        out.push(pool.entries[j].0.clone());
        j += 1;
    }
    assert(out@ =~= pool_names(pool.entries@));
    out
}

// ---------------------------------------------------------------------------
// Allocations

/// Where the locator of a model comes from.
#[derive(Clone, Copy, Debug, PartialEq, Eq, Structural)]
pub enum ModelLocatorSource {
    Machine,
    Fallback,
}

/// What an allocated process is for.
#[derive(Debug)]
pub enum AllocationIdentity {
    ModelRank {
        role: String,
        role_kind: ServeRoleKind,
        replica: u32,
        rank: u32,
        rank_count: u32,
        model_locator: String,
        model_locator_source: ModelLocatorSource,
    },
    Frontend { process_role: FrontendProcessRole, components: FrontendComponents },
}

/// A process with the resources that it was given.
#[derive(Debug)]
pub struct ResolvedProcessAllocation {
    pub process: String,
    pub identity: AllocationIdentity,
    pub machine: String,
    pub devices: Vec<u32>,
    pub endpoint: Option<EndpointAssignment>,
    pub ports: Dict<EndpointAssignment>,
    pub launch: LaunchBinding,
    pub dependencies: Vec<String>,
    pub runtime_cache: RuntimeCachePlan,
}

/// What processes are allocated from.
pub struct AllocationContext<'a> {
    pub workspace_root: &'a str,
    pub source_digest: &'a str,
    pub machines: &'a Dict<MachineBinding>,
    pub placement_id: &'a str,
    pub placement: &'a PlacementBinding,
    pub weight: &'a ModelWeightBinding,
    pub pixi_environment: &'a str,
    pub image_identity: Option<&'a str>,
    /// The process that must run where the control plane runs.
    pub local_process: Option<&'a str>,
}

/// Why an allocation is refused.
pub enum Refusal {
    Config { text: Seq<char> },
    Devices { machine: Seq<char>, required: u32, available: nat },
}

/// The result is the refusal.
pub open spec fn refused<T>(r: Result<T, InferlabError>, refusal: Refusal) -> bool {
    match refusal {
        Refusal::Config { text } => refuses(r, text),
        Refusal::Devices { machine, required, available } => r matches Err(
            InferlabError::InsufficientDevices { machine: m, required: n, available: a },
        ) && m@ == machine && n == required && a == available,
    }
}

/// The list with the ports added that it does not hold yet.
pub open spec fn with_ports(list: Seq<u16>, ports: Seq<u16>) -> Seq<u16>
    decreases ports.len(),
{
    if ports.len() == 0 {
        list
    } else {
        let before = with_ports(list, ports.drop_last());
        if before.contains(ports.last()) {
            before
        } else {
            before.push(ports.last())
        }
    }
}

/// The port numbers that an allocation holds: that of its endpoint, then the
/// named ones.
pub open spec fn ports_of(allocation: ResolvedProcessAllocation) -> Seq<u16> {
    let endpoint = match allocation.endpoint {
        Some(endpoint) => seq![endpoint.port],
        None => Seq::empty(),
    };
    endpoint + allocation.ports.entries@.map_values(
        |entry: (String, EndpointAssignment)| entry.1.port,
    )
}

/// The devices that allocations hold of a machine.
pub open spec fn devices_taken(
    allocations: Seq<ResolvedProcessAllocation>,
    machine: Seq<char>,
) -> Seq<u32>
    decreases allocations.len(),
{
    if allocations.len() == 0 {
        Seq::empty()
    } else {
        let before = devices_taken(allocations.drop_last(), machine);
        if allocations.last().machine@ == machine {
            before + allocations.last().devices@
        } else {
            before
        }
    }
}

/// The ports that allocations hold of a machine, each once.
pub open spec fn ports_taken(
    allocations: Seq<ResolvedProcessAllocation>,
    machine: Seq<char>,
) -> Seq<u16>
    decreases allocations.len(),
{
    if allocations.len() == 0 {
        Seq::empty()
    } else {
        let before = ports_taken(allocations.drop_last(), machine);
        if allocations.last().machine@ == machine {
            with_ports(before, ports_of(allocations.last()))
        } else {
            before
        }
    }
}

fn add_port(list: &mut Vec<u16>, port: u16)
    ensures
        final(list)@ == if old(list)@.contains(port) {
            old(list)@
        } else {
            old(list)@.push(port)
        },
{
    if !contains_port(list.as_slice(), port) {
        list.push(port);
    }
}

/// What the allocations hold of a machine.
fn usage_on(allocations: &[ResolvedProcessAllocation], machine: &str) -> (r: MachineAllocationUsage)
    ensures
        r.devices@ == devices_taken(allocations@, machine@),
        r.ports@ == ports_taken(allocations@, machine@),
{
    let mut devices: Vec<u32> = Vec::new();
    let mut ports: Vec<u16> = Vec::new();
    let mut i: usize = 0;
    assert(allocations@.take(0) =~= Seq::empty());
    while i < allocations.len()
        invariant
            i <= allocations@.len(),
            devices@ == devices_taken(allocations@.take(i as int), machine@),
            ports@ == ports_taken(allocations@.take(i as int), machine@),
        decreases allocations@.len() - i,
    {
        let allocation = &allocations[i];
        assert(allocations@.take(i + 1).drop_last() =~= allocations@.take(i as int));
        if same(allocation.machine.as_str(), machine) {
            let mut k: usize = 0;
            let ghost devices_before = devices@;
            while k < allocation.devices.len()
                invariant
                    k <= allocation.devices@.len(),
                    devices@ =~= devices_before + allocation.devices@.take(k as int),
                decreases allocation.devices@.len() - k,
            {
                devices.push(allocation.devices[k]);
                k += 1;
            }
            assert(allocation.devices@.take(k as int) =~= allocation.devices@);
            let ghost ports_before = ports@;
            let ghost all = ports_of(*allocation);
            let ghost named = allocation.ports.entries@.map_values(
                |entry: (String, EndpointAssignment)| entry.1.port,
            );
            let mut first: usize = 0;
            assert(all.take(0) =~= Seq::empty());
            assert(with_ports(ports_before, all.take(0)) == ports_before);
            if let Some(endpoint) = &allocation.endpoint {
                assert(all.take(1).drop_last() =~= all.take(0));
                assert(all.take(1).last() == endpoint.port);
                add_port(&mut ports, endpoint.port);
                first = 1;
                assert(ports@ == with_ports(ports_before, all.take(1)));
            }
            assert(ports@ == with_ports(ports_before, all.take(first as int)));
            assert(all.take(first + 0) =~= all.take(first as int));
            let mut j: usize = 0;
            while j < allocation.ports.entries.len()
                invariant
                    j <= allocation.ports.entries@.len(),
                    first <= 1,
                    all == ports_of(*allocation),
                    named == allocation.ports.entries@.map_values(
                        |entry: (String, EndpointAssignment)| entry.1.port,
                    ),
                    all.len() == first + allocation.ports.entries@.len(),
                    ports@ == with_ports(ports_before, all.take(first + j)),
                decreases allocation.ports.entries@.len() - j,
            {
                assert(all.take(first + j + 1).drop_last() =~= all.take(first + j));
                assert(all[first + j] == named[j as int]);
                add_port(&mut ports, allocation.ports.entries[j].1.port);
                j += 1;
            }
            assert(all.take(first + j) =~= all);
        }
        i += 1;
    }
    assert(allocations@.take(i as int) =~= allocations@);
    MachineAllocationUsage { devices, ports }
}

/// The ports taken of a machine are among those given, each once.
proof fn lemma_with_ports(list: Seq<u16>, ports: Seq<u16>, allowed: Seq<u16>)
    requires
        list.no_duplicates(),
        forall|i: int| 0 <= i < list.len() ==> allowed.contains(#[trigger] list[i]),
        forall|i: int| 0 <= i < ports.len() ==> allowed.contains(#[trigger] ports[i]),
    ensures
        with_ports(list, ports).no_duplicates(),
        forall|i: int|
            0 <= i < with_ports(list, ports).len() ==> allowed.contains(
                #[trigger] with_ports(list, ports)[i],
            ),
    decreases ports.len(),
{
    if ports.len() > 0 {
        assert forall|i: int| 0 <= i < ports.drop_last().len() implies allowed.contains(
            #[trigger] ports.drop_last()[i],
        ) by {
            assert(ports.drop_last()[i] == ports[i]);
        }
        lemma_with_ports(list, ports.drop_last(), allowed);
        assert(allowed.contains(ports[ports.len() - 1]));
    }
}

/// A list without repetition among the entries of another is no longer than it.
proof fn lemma_distinct_within(list: Seq<u16>, allowed: Seq<u16>)
    requires
        list.no_duplicates(),
        forall|i: int| 0 <= i < list.len() ==> allowed.contains(#[trigger] list[i]),
    ensures
        list.len() <= allowed.len(),
{
    list.unique_seq_to_set();
    allowed.lemma_cardinality_of_set();
    assert(list.to_set().subset_of(allowed.to_set())) by {
        assert forall|x: u16| list.to_set().contains(x) implies allowed.to_set().contains(x) by {
            let i = choose|i: int| 0 <= i < list.len() && list[i] == x;
            assert(allowed.contains(list[i]));
        }
    }
    vstd::set_lib::lemma_len_subset(list.to_set(), allowed.to_set());
}

// ---------------------------------------------------------------------------
// Choosing a machine

/// The name under which a placement binds the process.
pub open spec fn placement_role_of(requirement: ProcessRequirement) -> Seq<char> {
    match requirement.identity {
        ProcessRequirementIdentity::ModelRank { replica, .. } => replica.role_id@,
        ProcessRequirementIdentity::Frontend { .. } => "gateway"@,
    }
}

/// The name under which a placement binds the process.
pub fn placement_role<'b>(requirement: &'b ProcessRequirement) -> (r: &'b str)
    ensures
        r@ == placement_role_of(*requirement),
{
    match &requirement.identity {
        ProcessRequirementIdentity::ModelRank { replica, .. } => replica.role_id.as_str(),
        ProcessRequirementIdentity::Frontend { .. } => "gateway",
    }
}

/// The machines that a process may be placed on, the preferred first.
pub open spec fn candidates_of(placement: PlacementBinding, requirement: ProcessRequirement) -> Seq<
    String,
> {
    match requirement.fixed_devices {
        Some(fixed) => seq![fixed.machine],
        None => match placement.roles.at(placement_role_of(requirement)) {
            Some(PlacementRoleBinding::Machines { machines }) => if machines@.len() > 0 {
                machines@
            } else {
                default_candidates(placement)
            },
            _ => default_candidates(placement),
        },
    }
}

/// The machines of a placement: those that it lists, else those of its roles.
pub open spec fn default_candidates(placement: PlacementBinding) -> Seq<String> {
    if placement.machines@.len() > 0 {
        placement.machines@
    } else {
        pool_names(pool_of(placement.roles.entries@))
    }
}

fn compute_default_candidates(placement: &PlacementBinding) -> (r: Vec<String>)
    ensures
        r@ == default_candidates(*placement),
{
    if placement.machines.len() > 0 {
        copy_list(placement.machines.as_slice())
    } else {
        placement_machine_pool(placement)
    }
}

fn compute_candidates(placement: &PlacementBinding, requirement: &ProcessRequirement) -> (r: Vec<
    String,
>)
    ensures
        r@ == candidates_of(*placement, *requirement),
{
    if let Some(fixed) = &requirement.fixed_devices {
        let mut out: Vec<String> = Vec::new();
        out.push(fixed.machine.clone());
        assert(out@ =~= seq![fixed.machine]);
        return out;
    }
    match placement.roles.get(placement_role(requirement)) {
        Some(PlacementRoleBinding::Machines { machines }) => if machines.len() > 0 {
            copy_list(machines.as_slice())
        } else {
            compute_default_candidates(placement)
        },
        _ => compute_default_candidates(placement),
    }
}

/// The machine is known and local.
pub open spec fn local_machine(machines: Dict<MachineBinding>, name: Seq<char>) -> bool {
    machines.at(name) matches Some(machine) && machine.launch is Local
}

/// The local machines of a list, in their order.
pub open spec fn local_only(machines: Dict<MachineBinding>, list: Seq<String>) -> Seq<String>
    decreases list.len(),
{
    if list.len() == 0 {
        Seq::empty()
    } else {
        let before = local_only(machines, list.drop_last());
        if local_machine(machines, list.last()@) {
            before.push(list.last())
        } else {
            before
        }
    }
}

fn keep_local(machines: &Dict<MachineBinding>, list: &[String]) -> (r: Vec<String>)
    ensures
        r@ == local_only(*machines, list@),
{
    let mut out: Vec<String> = Vec::new();
    let mut i: usize = 0;
    while i < list.len()
        invariant
            i <= list@.len(),
            out@ == local_only(*machines, list@.take(i as int)),
        decreases list@.len() - i,
    {
        assert(list@.take(i + 1).drop_last() =~= list@.take(i as int));
        let local = match machines.get(list[i].as_str()) {
            Some(machine) => match machine.launch {
                LaunchBinding::Local => true,
                LaunchBinding::Ssh { .. } => false,
            },
            None => false,
        };
        if local {
            out.push(list[i].clone());
        }
        i += 1;
    }
    assert(list@.take(i as int) =~= list@);
    out
}

impl<'a> AllocationContext<'a> {
    /// The process must run where the control plane runs.
    pub open spec fn must_be_local(self, requirement: ProcessRequirement) -> bool {
        optional_text(self.local_process) == Some(requirement.id@)
    }

    /// The machines that a process is tried on, in their order.
    pub open spec fn eligible(self, requirement: ProcessRequirement) -> Seq<String> {
        let candidates = candidates_of(*self.placement, requirement);
        if self.must_be_local(requirement) {
            local_only(*self.machines, candidates)
        } else {
            candidates
        }
    }

    /// The machine at a position is known and has room beside the earlier processes.
    pub open spec fn fits(
        self,
        previous: Seq<ResolvedProcessAllocation>,
        requirement: ProcessRequirement,
    ) -> spec_fn(int) -> bool {
        |i: int|
            {
                let name = self.eligible(requirement)[i]@;
                self.machines.at(name) matches Some(machine) && has_room(
                    machine,
                    devices_taken(previous, name),
                    ports_taken(previous, name),
                    requirement.device_count as nat,
                    requirement.ports@.len() + 1,
                )
            }
    }

    /// The first machine that the process fits on.
    pub open spec fn choice(
        self,
        previous: Seq<ResolvedProcessAllocation>,
        requirement: ProcessRequirement,
    ) -> Option<int> {
        first_index(self.eligible(requirement).len(), self.fits(previous, requirement))
    }

    /// Why no machine can be chosen.
    pub open spec fn machine_refusal(
        self,
        previous: Seq<ResolvedProcessAllocation>,
        requirement: ProcessRequirement,
    ) -> Option<Refusal> {
        let eligible = self.eligible(requirement);
        if self.must_be_local(requirement) && eligible.len() == 0 {
            Some(
                Refusal::Config {
                    text: "placement "@ + debug_text(self.placement_id@)
                        + " has no local machine for control-plane-rendered frontend "@
                        + debug_text(requirement.id@),
                },
            )
        } else if self.choice(previous, requirement) is Some {
            None
        } else if eligible.len() == 1 {
            let name = eligible[0]@;
            match self.machines.at(name) {
                None => Some(Refusal::Config { text: "unknown machine "@ + debug_text(name) }),
                Some(machine) => {
                    let available = unused(machine.devices@, devices_taken(previous, name)).len();
                    if available < requirement.device_count {
                        Some(
                            Refusal::Devices {
                                machine: name,
                                required: requirement.device_count,
                                available,
                            },
                        )
                    } else {
                        Some(
                            Refusal::Config {
                                text: "machine "@ + debug_text(name)
                                    + " has insufficient free ports for process "@ + debug_text(
                                    requirement.id@,
                                ),
                            },
                        )
                    }
                },
            }
        } else {
            Some(
                Refusal::Config {
                    text: "placement "@ + debug_text(self.placement_id@) + " has no machine with "@
                        + decimal(requirement.device_count as nat) + " free devices and "@
                        + decimal(requirement.ports@.len() + 1) + " free ports for process "@ + (
                    debug_text(requirement.id@) + " in role "@ + debug_text(
                        placement_role_of(requirement),
                    )),
                },
            )
        }
    }
}

/// The allocation's machine is known and has its ports.
pub open spec fn well_placed(
    machines: Dict<MachineBinding>,
    allocation: ResolvedProcessAllocation,
) -> bool {
    machines.at(allocation.machine@) matches Some(machine) && forall|p: int|
        0 <= p < ports_of(allocation).len() ==> machine.ports@.contains(
            #[trigger] ports_of(allocation)[p],
        )
}

/// Every allocation's machine is known and has its ports.
pub open spec fn all_well_placed(
    machines: Dict<MachineBinding>,
    allocations: Seq<ResolvedProcessAllocation>,
) -> bool {
    forall|j: int|
        0 <= j < allocations.len() ==> well_placed(machines, #[trigger] allocations[j])
}

/// What allocations hold of a machine are ports of it, each once.
proof fn lemma_ports_taken(
    machines: Dict<MachineBinding>,
    allocations: Seq<ResolvedProcessAllocation>,
    name: Seq<char>,
    machine: MachineBinding,
)
    requires
        all_well_placed(machines, allocations),
        machines.at(name) == Some(machine),
    ensures
        ports_taken(allocations, name).no_duplicates(),
        forall|i: int|
            0 <= i < ports_taken(allocations, name).len() ==> machine.ports@.contains(
                #[trigger] ports_taken(allocations, name)[i],
            ),
        ports_taken(allocations, name).len() <= machine.ports@.len(),
    decreases allocations.len(),
{
    if allocations.len() > 0 {
        assert forall|j: int| 0 <= j < allocations.drop_last().len() implies well_placed(
            machines,
            #[trigger] allocations.drop_last()[j],
        ) by {
            assert(allocations.drop_last()[j] == allocations[j]);
        }
        lemma_ports_taken(machines, allocations.drop_last(), name, machine);
        assert(well_placed(machines, allocations[allocations.len() - 1]));
        if allocations.last().machine@ == name {
            lemma_with_ports(
                ports_taken(allocations.drop_last(), name),
                ports_of(allocations.last()),
                machine.ports@,
            );
        }
    }
    lemma_distinct_within(ports_taken(allocations, name), machine.ports@);
}

/// The first machine that the process fits on.
fn choose_machine<'a>(
    ctx: &AllocationContext<'a>,
    previous: &[ResolvedProcessAllocation],
    requirement: &ProcessRequirement,
) -> (r: Result<String, InferlabError>)
    requires
        all_well_placed(*ctx.machines, previous@),
        requirement.ports@.len() < usize::MAX,
    ensures
        match ctx.machine_refusal(previous@, *requirement) {
            Some(refusal) => refused(r, refusal),
            None => r matches Ok(name) && ctx.choice(previous@, *requirement) is Some && name
                == ctx.eligible(*requirement)[ctx.choice(previous@, *requirement)->0],
        },
{
    let mut eligible = compute_candidates(ctx.placement, requirement);
    let local = match ctx.local_process {
        Some(id) => same(id, requirement.id.as_str()),
        None => false,
    };
    if local {
        eligible = keep_local(ctx.machines, eligible.as_slice());
        if eligible.len() == 0 {
            return Err(
                InferlabError::InvalidConfig {
                    message: cat4(
                        "placement ",
                        debug(ctx.placement_id).as_str(),
                        " has no local machine for control-plane-rendered frontend ",
                        debug(requirement.id.as_str()).as_str(),
                    ),
                },
            );
        }
    }
    let ghost p = ctx.fits(previous@, *requirement);
    let need: usize = requirement.ports.len() + 1;
    let mut i: usize = 0;
    while i < eligible.len()
        invariant
            i <= eligible@.len(),
            eligible@ == ctx.eligible(*requirement),
            p == ctx.fits(previous@, *requirement),
            need == requirement.ports@.len() + 1,
            all_well_placed(*ctx.machines, previous@),
            !(ctx.must_be_local(*requirement) && eligible@.len() == 0),
            forall|j: int| 0 <= j < i ==> !(#[trigger] p(j)),
        decreases eligible@.len() - i,
    {
        let name = eligible[i].as_str();
        if let Some(machine) = ctx.machines.get(name) {
            let usage = usage_on(previous, name);
            proof {
                lemma_ports_taken(*ctx.machines, previous@, name@, *machine);
            }
            if machine_capacity(machine, Some(&usage), requirement.device_count as usize, need) {
                proof {
                    lemma_first_index_is(eligible@.len(), p, i as int);
                }
                return Ok(eligible[i].clone());
            }
        }
        assert(!p(i as int));
        i += 1;
    }
    proof {
        lemma_first_index(eligible@.len(), p);
    }
    if eligible.len() == 1 {
        let name = eligible[0].as_str();
        return match ctx.machines.get(name) {
            None => Err(
                InferlabError::InvalidConfig {
                    message: cat2("unknown machine ", debug(name).as_str()),
                },
            ),
            Some(machine) => {
                let usage = usage_on(previous, name);
                let available: usize = free_device_count(machine, Some(&usage));
                if available < requirement.device_count as usize {
                    Err(
                        InferlabError::InsufficientDevices {
                            machine: name.to_owned(),
                            required: requirement.device_count,
                            available,
                        },
                    )
                } else {
                    Err(
                        InferlabError::InvalidConfig {
                            message: cat4(
                                "machine ",
                                debug(name).as_str(),
                                " has insufficient free ports for process ",
                                debug(requirement.id.as_str()).as_str(),
                            ),
                        },
                    )
                }
            },
        };
    }
    let mut message = cat7(
        "placement ",
        debug(ctx.placement_id).as_str(),
        " has no machine with ",
        to_decimal(requirement.device_count as u64).as_str(),
        " free devices and ",
        to_decimal(need as u64).as_str(),
        " free ports for process ",
    );
    message.append(
        cat3(
            debug(requirement.id.as_str()).as_str(),
            " in role ",
            debug(placement_role(requirement)).as_str(),
        ).as_str(),
    );
    Err(InferlabError::InvalidConfig { message })
}

// ---------------------------------------------------------------------------
// Taking devices and ports

/// Every device of the list is one of the machine and not taken.
pub open spec fn devices_available(machine: MachineBinding, taken: Seq<u32>, list: Seq<u32>) -> bool {
    forall|i: int|
        0 <= i < list.len() ==> machine.devices@.contains(#[trigger] list[i]) && !taken.contains(
            list[i],
        )
}

/// Why the devices of a process are refused.
pub open spec fn device_refusal(
    machine: MachineBinding,
    taken: Seq<u32>,
    requirement: ProcessRequirement,
) -> Option<Refusal> {
    match requirement.fixed_devices {
        Some(fixed) => if devices_available(machine, taken, fixed.devices@) {
            None
        } else {
            Some(
                Refusal::Config {
                    text: "placement assigns unavailable or overlapping devices to process "@
                        + debug_text(requirement.id@),
                },
            )
        },
        None => None,
    }
}

/// The devices of a process: those that are bound to it, else the first that
/// are not taken.
pub open spec fn devices_chosen(
    machine: MachineBinding,
    taken: Seq<u32>,
    requirement: ProcessRequirement,
) -> Seq<u32> {
    match requirement.fixed_devices {
        Some(fixed) => fixed.devices@,
        None => first_of(unused(machine.devices@, taken), requirement.device_count as nat),
    }
}

/// The first entries of a list, at most so many.
pub open spec fn first_of<T>(list: Seq<T>, n: nat) -> Seq<T> {
    if n <= list.len() {
        list.take(n as int)
    } else {
        list
    }
}

fn take_devices(
    machine: &MachineBinding,
    taken: &[u32],
    requirement: &ProcessRequirement,
) -> (r: Result<Vec<u32>, InferlabError>)
    ensures
        match device_refusal(*machine, taken@, *requirement) {
            Some(refusal) => refused(r, refusal),
            None => r is Ok && r->Ok_0@ == devices_chosen(*machine, taken@, *requirement),
        },
{
    match &requirement.fixed_devices {
        Some(fixed) => {
            let mut out: Vec<u32> = Vec::new();
            let mut i: usize = 0;
            while i < fixed.devices.len()
                invariant
                    i <= fixed.devices@.len(),
                    out@ =~= fixed.devices@.take(i as int),
                    requirement.fixed_devices == Some(*fixed),
                    forall|j: int|
                        0 <= j < i ==> machine.devices@.contains(#[trigger] fixed.devices@[j])
                            && !taken@.contains(fixed.devices@[j]),
                decreases fixed.devices@.len() - i,
            {
                let device: u32 = fixed.devices[i];
                if !contains_device(machine.devices.as_slice(), device) || contains_device(
                    taken,
                    device,
                ) {
                    assert(!devices_available(*machine, taken@, fixed.devices@)) by {
                        assert(fixed.devices@[i as int] == device);
                    }
                    return Err(
                        InferlabError::InvalidConfig {
                            message: cat2(
                                "placement assigns unavailable or overlapping devices to process ",
                                debug(requirement.id.as_str()).as_str(),
                            ),
                        },
                    );
                }
                out.push(device);
                i += 1;
            }
            assert(fixed.devices@.take(i as int) =~= fixed.devices@);
            Ok(out)
        },
        None => {
            let mut out = unused_devices(machine.devices.as_slice(), taken);
            let ghost all = out@;
            if (requirement.device_count as usize) < out.len() {
                out.truncate(requirement.device_count as usize);
            }
            assert(out@ =~= first_of(all, requirement.device_count as nat));
            Ok(out)
        },
    }
}

/// The endpoint port that a placement binds to a process.
pub open spec fn fixed_endpoint(requirement: ProcessRequirement) -> Option<u16> {
    match requirement.fixed_devices {
        Some(fixed) => fixed.endpoint_port,
        None => None,
    }
}

/// Why the endpoint port of a process is refused.
pub open spec fn endpoint_refusal(
    machine: MachineBinding,
    machine_id: Seq<char>,
    taken: Seq<u16>,
    requirement: ProcessRequirement,
) -> Option<Refusal> {
    match fixed_endpoint(requirement) {
        Some(port) => if machine.ports@.contains(port) && !taken.contains(port) {
            None
        } else {
            Some(
                Refusal::Config {
                    text: "placement assigns unavailable endpoint port "@ + decimal(port as nat)
                        + " to process "@ + debug_text(requirement.id@),
                },
            )
        },
        None => if unused(machine.ports@, taken).len() > 0 {
            None
        } else {
            Some(
                Refusal::Config {
                    text: "machine "@ + debug_text(machine_id)
                        + " has no free endpoint port for process "@ + debug_text(requirement.id@),
                },
            )
        },
    }
}

/// The endpoint port of a process: the one bound to it, else the first that is
/// not taken.
pub open spec fn endpoint_chosen(
    machine: MachineBinding,
    taken: Seq<u16>,
    requirement: ProcessRequirement,
) -> u16 {
    match fixed_endpoint(requirement) {
        Some(port) => port,
        None => unused(machine.ports@, taken)[0],
    }
}

fn take_endpoint(
    machine: &MachineBinding,
    machine_id: &str,
    taken: &[u16],
    requirement: &ProcessRequirement,
) -> (r: Result<u16, InferlabError>)
    ensures
        match endpoint_refusal(*machine, machine_id@, taken@, *requirement) {
            Some(refusal) => refused(r, refusal),
            None => r == Ok::<u16, InferlabError>(endpoint_chosen(*machine, taken@, *requirement))
                && machine.ports@.contains(r->Ok_0) && !taken@.contains(r->Ok_0),
        },
{
    let fixed = match &requirement.fixed_devices {
        Some(fixed) => fixed.endpoint_port,
        None => None,
    };
    match fixed {
        Some(port) => if contains_port(machine.ports.as_slice(), port) && !contains_port(
            taken,
            port,
        ) {
            Ok(port)
        } else {
            Err(
                InferlabError::InvalidConfig {
                    message: cat4(
                        "placement assigns unavailable endpoint port ",
                        to_decimal(port as u64).as_str(),
                        " to process ",
                        debug(requirement.id.as_str()).as_str(),
                    ),
                },
            )
        },
        None => {
            let free = unused_ports(machine.ports.as_slice(), taken);
            proof {
                lemma_unused(machine.ports@, taken@);
            }
            if free.len() > 0 {
                Ok(free[0])
            } else {
                Err(
                    InferlabError::InvalidConfig {
                        message: cat4(
                            "machine ",
                            debug(machine_id).as_str(),
                            " has no free endpoint port for process ",
                            debug(requirement.id.as_str()).as_str(),
                        ),
                    },
                )
            }
        },
    }
}

/// The port numbers for the named ports of a process: the first that are
/// neither taken nor its endpoint.
pub open spec fn named_chosen(
    machine: MachineBinding,
    taken: Seq<u16>,
    endpoint: u16,
    names: nat,
) -> Seq<u16> {
    first_of(unused(machine.ports@, taken.push(endpoint)), names)
}

/// The named ports of a process on a host.
pub open spec fn named_ports(names: Seq<String>, host: String, ports: Seq<u16>) -> Seq<
    (String, EndpointAssignment),
>
    decreases names.len(),
{
    if names.len() == 0 {
        Seq::empty()
    } else {
        with_entry(
            named_ports(names.drop_last(), host, ports.drop_last()),
            names.last(),
            EndpointAssignment { host, port: ports.last() },
        )
    }
}

/// The named ports are among the port numbers given.
proof fn lemma_named_ports(names: Seq<String>, host: String, ports: Seq<u16>)
    requires
        names.len() == ports.len(),
    ensures
        forall|i: int|
            0 <= i < named_ports(names, host, ports).len() ==> ports.contains(
                (#[trigger] named_ports(names, host, ports)[i]).1.port,
            ),
    decreases names.len(),
{
    if names.len() > 0 {
        let before = named_ports(names.drop_last(), host, ports.drop_last());
        lemma_named_ports(names.drop_last(), host, ports.drop_last());
        let after = named_ports(names, host, ports);
        crate::dict::lemma_rank(before, names.last()@);
        assert forall|i: int| 0 <= i < after.len() implies ports.contains(
            (#[trigger] after[i]).1.port,
        ) by {
            if after[i].1.port == ports.last() {
                assert(ports[ports.len() - 1] == ports.last());
            } else {
                let at = crate::dict::rank(before, names.last()@);
                let k = if after.len() == before.len() || i < at {
                    i
                } else {
                    i - 1
                };
                assert(before[k].1.port == after[i].1.port);
                assert(ports.drop_last().contains(before[k].1.port));
                let m = choose|m: int|
                    0 <= m < ports.drop_last().len() && ports.drop_last()[m] == before[k].1.port;
                assert(ports[m] == after[i].1.port);
            }
        }
    }
}

fn build_named_ports(names: &[String], host: &String, ports: &[u16]) -> (r: Dict<
    EndpointAssignment,
>)
    requires
        names@.len() == ports@.len(),
    ensures
        r.entries@ == named_ports(names@, *host, ports@),
        r.wf(),
{
    let mut out: Dict<EndpointAssignment> = Dict::new();
    let mut i: usize = 0;
    assert(names@.take(0) =~= Seq::empty());
    while i < names.len()
        invariant
            i <= names@.len(),
            names@.len() == ports@.len(),
            out.entries@ == named_ports(names@.take(i as int), *host, ports@.take(i as int)),
            out.wf(),
        decreases names@.len() - i,
    {
        assert(names@.take(i + 1).drop_last() =~= names@.take(i as int));
        assert(ports@.take(i + 1).drop_last() =~= ports@.take(i as int));
        out.insert(names[i].clone(), EndpointAssignment { host: host.clone(), port: ports[i] });
        i += 1;
    }
    assert(names@.take(i as int) =~= names@);
    assert(ports@.take(i as int) =~= ports@);
    out
}

// ---------------------------------------------------------------------------
// Identity

/// How many ranks of the replica are required.
pub open spec fn ranks_required(requirements: Seq<ProcessRequirement>, replica: Seq<char>) -> nat
    decreases requirements.len(),
{
    if requirements.len() == 0 {
        0
    } else {
        ranks_required(requirements.drop_last(), replica) + if (
        requirements.last().identity matches ProcessRequirementIdentity::ModelRank {
            replica: of,
            ..
        } && of.id@ == replica) {
            1nat
        } else {
            0nat
        }
    }
}

fn count_ranks(requirements: &[ProcessRequirement], replica: &str) -> (r: usize)
    ensures
        r == ranks_required(requirements@, replica@),
{
    let mut i: usize = 0;
    let mut count: usize = 0;
    while i < requirements.len()
        invariant
            i <= requirements@.len(),
            count <= i,
            count == ranks_required(requirements@.take(i as int), replica@),
        decreases requirements@.len() - i,
    {
        assert(requirements@.take(i + 1).drop_last() =~= requirements@.take(i as int));
        if let ProcessRequirementIdentity::ModelRank { replica: of, .. } = &requirements[i].identity {
            if same(of.id.as_str(), replica) {
                count += 1;
            }
        }
        i += 1;
    }
    assert(requirements@.take(i as int) =~= requirements@);
    count
}

/// The locator of the model on a machine, with where it comes from.
pub open spec fn locator_of(weight: ModelWeightBinding, machine: Seq<char>) -> Option<
    (String, ModelLocatorSource),
> {
    match weight.machine_locators.at(machine) {
        Some(locator) => Some((locator, ModelLocatorSource::Machine)),
        None => match weight.locator {
            Some(locator) => Some((locator, ModelLocatorSource::Fallback)),
            None => None,
        },
    }
}

/// Why the identity of a process cannot be allocated.
pub open spec fn identity_refusal(
    weight: ModelWeightBinding,
    requirements: Seq<ProcessRequirement>,
    requirement: ProcessRequirement,
    machine: Seq<char>,
    devices: nat,
) -> Option<Refusal> {
    match requirement.identity {
        ProcessRequirementIdentity::ModelRank { replica, .. } => if locator_of(
            weight,
            machine,
        ) is None {
            Some(
                Refusal::Config {
                    text: "model weights have no locator for Engine process "@ + debug_text(
                        requirement.id@,
                    ) + " on machine "@ + debug_text(machine),
                },
            )
        } else if ranks_required(requirements, replica.id@) > u32::MAX {
            Some(
                Refusal::Config {
                    text: "replica "@ + debug_text(replica.id@) + " has too many ranks"@,
                },
            )
        } else {
            None
        },
        ProcessRequirementIdentity::Frontend { .. } => if requirement.device_count != 0 || devices
            != 0 {
            Some(Refusal::Config { text: "frontend process must not allocate model devices"@ })
        } else {
            None
        },
    }
}

/// The allocated identity is that of the required process.
pub open spec fn identity_is(
    identity: AllocationIdentity,
    weight: ModelWeightBinding,
    requirements: Seq<ProcessRequirement>,
    requirement: ProcessRequirement,
    machine: Seq<char>,
) -> bool {
    match (requirement.identity, identity) {
        (
            ProcessRequirementIdentity::ModelRank { role, replica, rank, .. },
            AllocationIdentity::ModelRank {
                role: role_id,
                role_kind,
                replica: replica_index,
                rank: number,
                rank_count,
                model_locator,
                model_locator_source,
            },
        ) => {
            &&& role_id == replica.role_id
            &&& role_kind == role.kind
            &&& replica_index == replica.replica_index
            &&& number == rank
            &&& rank_count == ranks_required(requirements, replica.id@)
            &&& locator_of(weight, machine) == Some((model_locator, model_locator_source))
        },
        (
            ProcessRequirementIdentity::Frontend { process_role, components, .. },
            AllocationIdentity::Frontend { process_role: allocated, components: parts },
        ) => process_role == allocated && components == parts,
        _ => false,
    }
}

fn allocate_identity(
    weight: &ModelWeightBinding,
    requirements: &[ProcessRequirement],
    requirement: &ProcessRequirement,
    machine: &str,
    devices: usize,
) -> (r: Result<AllocationIdentity, InferlabError>)
    ensures
        match identity_refusal(*weight, requirements@, *requirement, machine@, devices as nat) {
            Some(refusal) => refused(r, refusal),
            None => r is Ok && identity_is(
                r->Ok_0,
                *weight,
                requirements@,
                *requirement,
                machine@,
            ),
        },
{
    match &requirement.identity {
        ProcessRequirementIdentity::ModelRank { role, replica, rank, .. } => {
            let (model_locator, source) = match weight.machine_locators.get(machine) {
                Some(locator) => (locator.clone(), ModelLocatorSource::Machine),
                None => match &weight.locator {
                    Some(locator) => (locator.clone(), ModelLocatorSource::Fallback),
                    None => {
                        return Err(
                            InferlabError::InvalidConfig {
                                message: cat4(
                                    "model weights have no locator for Engine process ",
                                    debug(requirement.id.as_str()).as_str(),
                                    " on machine ",
                                    debug(machine).as_str(),
                                ),
                            },
                        );
                    },
                },
            };
            let count: usize = count_ranks(requirements, replica.id.as_str());
            if count as u64 > u32::MAX as u64 {
                return Err(
                    InferlabError::InvalidConfig {
                        message: cat3(
                            "replica ",
                            debug(replica.id.as_str()).as_str(),
                            " has too many ranks",
                        ),
                    },
                );
            }
            Ok(
                AllocationIdentity::ModelRank {
                    role: replica.role_id.clone(),
                    role_kind: role.kind,
                    replica: replica.replica_index,
                    rank: *rank,
                    rank_count: count as u32,
                    model_locator,
                    model_locator_source: source,
                },
            )
        },
        ProcessRequirementIdentity::Frontend { process_role, components, .. } => {
            if requirement.device_count != 0 || devices != 0 {
                return Err(
                    InferlabError::InvalidConfig {
                        message: "frontend process must not allocate model devices".to_owned(),
                    },
                );
            }
            Ok(
                AllocationIdentity::Frontend {
                    process_role: *process_role,
                    components: *components,
                },
            )
        },
    }
}

// ---------------------------------------------------------------------------
// One process after the other

/// Every port has a name of its own.
pub open spec fn ports_named(ports: Seq<String>) -> bool {
    forall|i: int|
        0 <= i < ports.len() ==> (#[trigger] ports[i])@.len() > 0 && !lists(
            ports.take(i),
            ports[i]@,
        )
}

fn check_ports_named(ports: &[String]) -> (r: bool)
    ensures
        r == ports_named(ports@),
{
    let mut seen: Vec<String> = Vec::new();
    let mut i: usize = 0;
    while i < ports.len()
        invariant
            i <= ports@.len(),
            seen@ =~= ports@.take(i as int),
            forall|j: int|
                0 <= j < i ==> (#[trigger] ports@[j])@.len() > 0 && !lists(
                    ports@.take(j),
                    ports@[j]@,
                ),
        decreases ports@.len() - i,
    {
        if ports[i].as_str().is_empty() || list_contains(seen.as_slice(), ports[i].as_str()) {
            assert(!(ports@[i as int]@.len() > 0 && !lists(ports@.take(i as int), ports@[i as int]@)));
            return false;
        }
        seen.push(ports[i].clone());
        i += 1;
    }
    true
}

/// Why a process cannot be allocated whatever the machines hold.
pub open spec fn form_refusal(requirements: Seq<ProcessRequirement>, i: int) -> Option<Refusal> {
    let requirement = requirements[i];
    if requirement.id@.len() == 0 || named_before(requirements, i, requirement.id@) {
        Some(
            Refusal::Config {
                text: "integration returned invalid or duplicate process id "@ + debug_text(
                    requirement.id@,
                ),
            },
        )
    } else if placement_role_of(requirement).len() == 0 {
        Some(
            Refusal::Config {
                text: "process "@ + debug_text(requirement.id@) + " has an empty placement role"@,
            },
        )
    } else if !ports_named(requirement.ports@) {
        Some(
            Refusal::Config {
                text: "integration returned invalid or duplicate port requirements for process "@
                    + debug_text(requirement.id@),
            },
        )
    } else {
        None
    }
}

fn check_form(requirements: &[ProcessRequirement], i: usize) -> (r: Result<(), InferlabError>)
    requires
        i < requirements@.len(),
    ensures
        match form_refusal(requirements@, i as int) {
            Some(refusal) => refused(r, refusal),
            None => r is Ok,
        },
{
    let requirement = &requirements[i];
    let id = requirement.id.as_str();
    let mut repeated = false;
    let mut j: usize = 0;
    while j < i
        invariant
            j <= i < requirements@.len(),
            id@ == requirements@[i as int].id@,
            repeated == named_before(requirements@, j as int, id@),
        decreases i - j,
    {
        if same(requirements[j].id.as_str(), id) {
            repeated = true;
            assert(requirements@[j as int].id@ == id@);
        }
        j += 1;
    }
    if id.is_empty() || repeated {
        return Err(
            InferlabError::InvalidConfig {
                message: cat2(
                    "integration returned invalid or duplicate process id ",
                    debug(id).as_str(),
                ),
            },
        );
    }
    if placement_role(requirement).is_empty() {
        return Err(
            InferlabError::InvalidConfig {
                message: cat3("process ", debug(id).as_str(), " has an empty placement role"),
            },
        );
    }
    if !check_ports_named(requirement.ports.as_slice()) {
        return Err(
            InferlabError::InvalidConfig {
                message: cat2(
                    "integration returned invalid or duplicate port requirements for process ",
                    debug(id).as_str(),
                ),
            },
        );
    }
    Ok(())
}

/// The first of two refusals.
pub open spec fn or_refusal(first: Option<Refusal>, second: Option<Refusal>) -> Option<Refusal> {
    match first {
        Some(refusal) => Some(refusal),
        None => second,
    }
}

impl<'a> AllocationContext<'a> {
    /// The name of the machine that the process is placed on.
    pub open spec fn machine_chosen(
        self,
        previous: Seq<ResolvedProcessAllocation>,
        requirement: ProcessRequirement,
    ) -> String {
        self.eligible(requirement)[self.choice(previous, requirement)->0]
    }

    /// Why the process cannot be served on the machine that was chosen for it.
    pub open spec fn resource_refusal(
        self,
        previous: Seq<ResolvedProcessAllocation>,
        requirements: Seq<ProcessRequirement>,
        i: int,
    ) -> Option<Refusal> {
        let requirement = requirements[i];
        let name = self.machine_chosen(previous, requirement)@;
        let machine = self.machines.at(name)->0;
        let devices = devices_taken(previous, name);
        let ports = ports_taken(previous, name);
        let endpoint = endpoint_chosen(machine, ports, requirement);
        or_refusal(
            device_refusal(machine, devices, requirement),
            or_refusal(
                endpoint_refusal(machine, name, ports, requirement),
                or_refusal(
                    if named_chosen(machine, ports, endpoint, requirement.ports@.len()).len()
                        != requirement.ports@.len() {
                        Some(
                            Refusal::Config {
                                text: "machine "@ + debug_text(name)
                                    + " has insufficient free named ports for process "@
                                    + debug_text(requirement.id@),
                            },
                        )
                    } else {
                        None
                    },
                    identity_refusal(
                        *self.weight,
                        requirements,
                        requirement,
                        name,
                        devices_chosen(machine, devices, requirement).len(),
                    ),
                ),
            ),
        )
    }

    /// Why the process at a position cannot be allocated after the earlier ones.
    pub open spec fn refusal(
        self,
        previous: Seq<ResolvedProcessAllocation>,
        requirements: Seq<ProcessRequirement>,
        i: int,
    ) -> Option<Refusal> {
        or_refusal(
            form_refusal(requirements, i),
            or_refusal(
                self.machine_refusal(previous, requirements[i]),
                self.resource_refusal(previous, requirements, i),
            ),
        )
    }

    /// The allocation gives the process at a position what is due to it after
    /// the earlier ones.
    pub open spec fn allocation_is(
        self,
        allocation: ResolvedProcessAllocation,
        previous: Seq<ResolvedProcessAllocation>,
        requirements: Seq<ProcessRequirement>,
        i: int,
    ) -> bool {
        let requirement = requirements[i];
        let machine_id = self.machine_chosen(previous, requirement);
        let name = machine_id@;
        let machine = self.machines.at(name)->0;
        let ports = ports_taken(previous, name);
        let endpoint = endpoint_chosen(machine, ports, requirement);
        &&& self.choice(previous, requirement) is Some
        &&& self.machines.at(name) is Some
        &&& allocation.process == requirement.id
        &&& allocation.machine == machine_id
        &&& allocation.devices@ == devices_chosen(
            machine,
            devices_taken(previous, name),
            requirement,
        )
        &&& allocation.endpoint == Some(EndpointAssignment { host: machine.host, port: endpoint })
        &&& allocation.ports.entries@ == named_ports(
            requirement.ports@,
            machine.host,
            named_chosen(machine, ports, endpoint, requirement.ports@.len()),
        )
        &&& allocation.launch == machine.launch
        &&& allocation.dependencies@ == requirement.launch_dependencies@
        &&& identity_is(allocation.identity, *self.weight, requirements, requirement, name)
        &&& cache_is(
            allocation.runtime_cache,
            self.workspace_root@,
            self.source_digest@,
            machine,
            name,
            requirement.id@,
            self.pixi_environment@,
            optional_text(self.image_identity),
        )
    }

    /// The process at a position was allocated after those before it.
    pub open spec fn placed(
        self,
        allocations: Seq<ResolvedProcessAllocation>,
        requirements: Seq<ProcessRequirement>,
        i: int,
    ) -> bool {
        &&& self.refusal(allocations.take(i), requirements, i) is None
        &&& self.allocation_is(allocations[i], allocations.take(i), requirements, i)
    }

    /// The list holds the allocations of the first processes, in their order.
    pub open spec fn allocated(
        self,
        allocations: Seq<ResolvedProcessAllocation>,
        requirements: Seq<ProcessRequirement>,
    ) -> bool {
        &&& allocations.len() <= requirements.len()
        &&& forall|i: int|
            0 <= i < allocations.len() ==> #[trigger] self.placed(allocations, requirements, i)
    }
}

fn allocate_process<'a>(
    ctx: &AllocationContext<'a>,
    previous: &[ResolvedProcessAllocation],
    requirements: &[ProcessRequirement],
    i: usize,
) -> (r: Result<ResolvedProcessAllocation, InferlabError>)
    requires
        i < requirements@.len(),
        all_well_placed(*ctx.machines, previous@),
        requirements@[i as int].ports@.len() < usize::MAX,
    ensures
        match ctx.refusal(previous@, requirements@, i as int) {
            Some(refusal) => refused(r, refusal),
            None => r is Ok && ctx.allocation_is(r->Ok_0, previous@, requirements@, i as int)
                && well_placed(*ctx.machines, r->Ok_0),
        },
{
    match check_form(requirements, i) {
        Err(error) => {
            return Err(error);
        },
        Ok(()) => {},
    }
    let requirement = &requirements[i];
    let machine_id = match choose_machine(ctx, previous, requirement) {
        Err(error) => {
            return Err(error);
        },
        Ok(name) => name,
    };
    proof {
        lemma_first_index(
            ctx.eligible(*requirement).len(),
            ctx.fits(previous@, *requirement),
        );
    }
    let machine = match ctx.machines.get(machine_id.as_str()) {
        Some(machine) => machine,
        None => {
            assert(false);
            return Err(
                InferlabError::InvalidConfig {
                    message: cat2("unknown machine ", debug(machine_id.as_str()).as_str()),
                },
            );
        },
    };
    let usage = usage_on(previous, machine_id.as_str());
    let devices = match take_devices(machine, usage.devices.as_slice(), requirement) {
        Err(error) => {
            return Err(error);
        },
        Ok(devices) => devices,
    };
    let endpoint_port: u16 = match take_endpoint(
        machine,
        machine_id.as_str(),
        usage.ports.as_slice(),
        requirement,
    ) {
        Err(error) => {
            return Err(error);
        },
        Ok(port) => port,
    };
    let mut taken = usage.ports;
    taken.push(endpoint_port);
    let mut selected = unused_ports(machine.ports.as_slice(), taken.as_slice());
    let ghost free = selected@;
    if requirement.ports.len() < selected.len() {
        selected.truncate(requirement.ports.len());
    }
    assert(selected@ =~= first_of(free, requirement.ports@.len()));
    if selected.len() != requirement.ports.len() {
        return Err(
            InferlabError::InvalidConfig {
                message: cat4(
                    "machine ",
                    debug(machine_id.as_str()).as_str(),
                    " has insufficient free named ports for process ",
                    debug(requirement.id.as_str()).as_str(),
                ),
            },
        );
    }
    let identity = match allocate_identity(
        ctx.weight,
        requirements,
        requirement,
        machine_id.as_str(),
        devices.len(),
    ) {
        Err(error) => {
            return Err(error);
        },
        Ok(identity) => identity,
    };
    let ports = build_named_ports(requirement.ports.as_slice(), &machine.host, selected.as_slice());
    let runtime_cache = runtime_cache_plan(
        ctx.workspace_root,
        ctx.source_digest,
        machine,
        machine_id.as_str(),
        requirement.id.as_str(),
        ctx.pixi_environment,
        ctx.image_identity,
    );
    let allocation = ResolvedProcessAllocation {
        process: requirement.id.clone(),
        identity,
        machine: machine_id,
        devices,
        endpoint: Some(EndpointAssignment { host: machine.host.clone(), port: endpoint_port }),
        ports,
        launch: machine.launch.clone(),
        dependencies: copy_list(requirement.launch_dependencies.as_slice()),
        runtime_cache,
    };
    proof {
        lemma_unused(machine.ports@, taken@);
        lemma_named_ports(requirement.ports@, machine.host, selected@);
        assert forall|p: int| 0 <= p < ports_of(allocation).len() implies machine.ports@.contains(
            #[trigger] ports_of(allocation)[p],
        ) by {
            if p > 0 {
                let entry = allocation.ports.entries@[p - 1];
                assert(ports_of(allocation)[p] == entry.1.port);
                assert(selected@.contains(entry.1.port));
                let k = choose|k: int| 0 <= k < selected@.len() && selected@[k] == entry.1.port;
                assert(free[k] == selected@[k]);
            }
        }
    }
    Ok(allocation)
}

/// Machines, devices, ports and caches for the processes, one after the other:
/// each takes the first machine with room beside those before it, and nothing
/// that they hold.
pub fn allocate_processes<'a>(
    ctx: &AllocationContext<'a>,
    requirements: &[ProcessRequirement],
) -> (r: Result<Vec<ResolvedProcessAllocation>, InferlabError>)
    requires
        forall|i: int|
            0 <= i < requirements@.len() ==> (#[trigger] requirements@[i]).ports@.len()
                < usize::MAX,
    ensures
        match r {
            Ok(allocations) => allocations@.len() == requirements@.len() && ctx.allocated(
                allocations@,
                requirements@,
            ),
            Err(_) => exists|previous: Seq<ResolvedProcessAllocation>|
                {
                    &&& #[trigger] ctx.allocated(previous, requirements@)
                    &&& previous.len() < requirements@.len()
                    &&& ctx.refusal(previous, requirements@, previous.len() as int) is Some
                    &&& refused(
                        r,
                        ctx.refusal(previous, requirements@, previous.len() as int)->0,
                    )
                },
        },
{
    let mut allocations: Vec<ResolvedProcessAllocation> = Vec::new();
    let mut i: usize = 0;
    while i < requirements.len()
        invariant
            i <= requirements@.len(),
            allocations@.len() == i,
            ctx.allocated(allocations@, requirements@),
            all_well_placed(*ctx.machines, allocations@),
            forall|j: int|
                0 <= j < requirements@.len() ==> (#[trigger] requirements@[j]).ports@.len()
                    < usize::MAX,
        decreases requirements@.len() - i,
    {
        let ghost before = allocations@;
        match allocate_process(ctx, allocations.as_slice(), requirements, i) {
            Err(error) => {
                assert(ctx.allocated(before, requirements@));
                return Err(error);
            },
            Ok(allocation) => {
                allocations.push(allocation);
                proof {
                    assert forall|j: int| 0 <= j < allocations@.len() implies #[trigger] ctx.placed(
                        allocations@,
                        requirements@,
                        j,
                    ) by {
                        assert(allocations@.take(j) =~= before.take(j));
                        if j < before.len() {
                            assert(ctx.placed(before, requirements@, j));
                        } else {
                            assert(before.take(j) =~= before);
                        }
                    }
                }
            },
        }
        i += 1;
    }
    Ok(allocations)
}

// ---------------------------------------------------------------------------
// Nothing is given twice

/// What an allocation holds is taken after it.
proof fn lemma_devices_taken(
    allocations: Seq<ResolvedProcessAllocation>,
    i: int,
    device: u32,
)
    requires
        0 <= i < allocations.len(),
        allocations[i].devices@.contains(device),
    ensures
        devices_taken(allocations, allocations[i].machine@).contains(device),
    decreases allocations.len(),
{
    let name = allocations[i].machine@;
    let before = devices_taken(allocations.drop_last(), name);
    if i == allocations.len() - 1 {
        let own = allocations.last().devices@;
        let k = choose|k: int| 0 <= k < own.len() && own[k] == device;
        assert((before + own)[before.len() + k] == device);
    } else {
        assert(allocations.drop_last()[i] == allocations[i]);
        lemma_devices_taken(allocations.drop_last(), i, device);
        let k = choose|k: int| 0 <= k < before.len() && before[k] == device;
        assert(devices_taken(allocations, name)[k] == device);
    }
}

/// Added ports are held, and what was held stays held.
proof fn lemma_with_ports_holds(list: Seq<u16>, ports: Seq<u16>, port: u16)
    requires
        list.contains(port) || ports.contains(port),
    ensures
        with_ports(list, ports).contains(port),
    decreases ports.len(),
{
    if ports.len() > 0 {
        let before = with_ports(list, ports.drop_last());
        if list.contains(port) || ports.drop_last().contains(port) {
            lemma_with_ports_holds(list, ports.drop_last(), port);
            let k = choose|k: int| 0 <= k < before.len() && before[k] == port;
            assert(with_ports(list, ports)[k] == port);
        } else {
            let k = choose|k: int| 0 <= k < ports.len() && ports[k] == port;
            if k < ports.len() - 1 {
                assert(ports.drop_last()[k] == port);
            }
            assert(ports.last() == port);
            if !before.contains(port) {
                assert(before.push(port)[before.len() as int] == port);
            }
        }
    }
}

/// The ports of an allocation are taken after it.
proof fn lemma_ports_taken_hold(allocations: Seq<ResolvedProcessAllocation>, i: int, port: u16)
    requires
        0 <= i < allocations.len(),
        ports_of(allocations[i]).contains(port),
    ensures
        ports_taken(allocations, allocations[i].machine@).contains(port),
    decreases allocations.len(),
{
    let name = allocations[i].machine@;
    let before = ports_taken(allocations.drop_last(), name);
    if i == allocations.len() - 1 {
        lemma_with_ports_holds(before, ports_of(allocations.last()), port);
    } else {
        assert(allocations.drop_last()[i] == allocations[i]);
        lemma_ports_taken_hold(allocations.drop_last(), i, port);
        if allocations.last().machine@ == name {
            lemma_with_ports_holds(before, ports_of(allocations.last()), port);
        }
    }
}

/// No device of a machine is given to two processes.
pub proof fn law_no_device_is_given_twice(
    ctx: AllocationContext,
    allocations: Seq<ResolvedProcessAllocation>,
    requirements: Seq<ProcessRequirement>,
    i: int,
    j: int,
    device: u32,
)
    requires
        ctx.allocated(allocations, requirements),
        0 <= i < j < allocations.len(),
        allocations[i].machine@ == allocations[j].machine@,
        allocations[i].devices@.contains(device),
    ensures
        !allocations[j].devices@.contains(device),
{
    assert(ctx.placed(allocations, requirements, j));
    let previous = allocations.take(j);
    assert(previous[i] == allocations[i]);
    lemma_devices_taken(previous, i, device);
    let name = allocations[j].machine@;
    let machine = ctx.machines.at(name)->0;
    let taken = devices_taken(previous, name);
    lemma_unused(machine.devices@, taken);
    if allocations[j].devices@.contains(device) {
        let own = allocations[j].devices@;
        let k = choose|k: int| 0 <= k < own.len() && own[k] == device;
        match requirements[j].fixed_devices {
            Some(fixed) => {
                assert(device_refusal(machine, taken, requirements[j]) is None);
                assert(!taken.contains(fixed.devices@[k]));
            },
            None => {
                assert(own[k] == unused(machine.devices@, taken)[k]);
            },
        }
    }
}

/// No port of a machine is given to two processes.
pub proof fn law_no_port_is_given_twice(
    ctx: AllocationContext,
    allocations: Seq<ResolvedProcessAllocation>,
    requirements: Seq<ProcessRequirement>,
    i: int,
    j: int,
    port: u16,
)
    requires
        ctx.allocated(allocations, requirements),
        0 <= i < j < allocations.len(),
        allocations[i].machine@ == allocations[j].machine@,
        ports_of(allocations[i]).contains(port),
    ensures
        !ports_of(allocations[j]).contains(port),
{
    assert(ctx.placed(allocations, requirements, j));
    let previous = allocations.take(j);
    assert(previous[i] == allocations[i]);
    lemma_ports_taken_hold(previous, i, port);
    let name = allocations[j].machine@;
    let machine = ctx.machines.at(name)->0;
    let taken = ports_taken(previous, name);
    let requirement = requirements[j];
    let endpoint = endpoint_chosen(machine, taken, requirement);
    lemma_unused(machine.ports@, taken);
    lemma_unused(machine.ports@, taken.push(endpoint));
    assert(endpoint_refusal(machine, name, taken, requirement) is None);
    assert(!taken.contains(endpoint));
    let named = named_chosen(machine, taken, endpoint, requirement.ports@.len());
    lemma_named_ports(requirement.ports@, machine.host, named);
    if ports_of(allocations[j]).contains(port) {
        let own = ports_of(allocations[j]);
        let k = choose|k: int| 0 <= k < own.len() && own[k] == port;
        if k > 0 {
            let entry = allocations[j].ports.entries@[k - 1];
            assert(own[k] == entry.1.port);
            assert(named.contains(entry.1.port));
            let m = choose|m: int| 0 <= m < named.len() && named[m] == port;
            assert(named[m] == unused(machine.ports@, taken.push(endpoint))[m]);
            let t = choose|t: int| 0 <= t < taken.len() && taken[t] == port;
            assert(taken.push(endpoint)[t] == port);
        }
    }
}

/// A process that must run where the control plane runs is on a local machine.
pub proof fn law_local_process_is_local(
    ctx: AllocationContext,
    allocations: Seq<ResolvedProcessAllocation>,
    requirements: Seq<ProcessRequirement>,
    i: int,
)
    requires
        ctx.allocated(allocations, requirements),
        0 <= i < allocations.len(),
        ctx.must_be_local(requirements[i]),
    ensures
        local_machine(*ctx.machines, allocations[i].machine@),
{
    assert(ctx.placed(allocations, requirements, i));
    let list = candidates_of(*ctx.placement, requirements[i]);
    lemma_local_only(*ctx.machines, list);
    lemma_first_index(
        ctx.eligible(requirements[i]).len(),
        ctx.fits(allocations.take(i), requirements[i]),
    );
}

/// What is kept of a list of machines is local.
proof fn lemma_local_only(machines: Dict<MachineBinding>, list: Seq<String>)
    ensures
        forall|i: int|
            0 <= i < local_only(machines, list).len() ==> local_machine(
                machines,
                (#[trigger] local_only(machines, list)[i])@,
            ),
    decreases list.len(),
{
    if list.len() > 0 {
        lemma_local_only(machines, list.drop_last());
        let before = local_only(machines, list.drop_last());
        assert forall|i: int| 0 <= i < local_only(machines, list).len() implies local_machine(
            machines,
            (#[trigger] local_only(machines, list)[i])@,
        ) by {
            if i < before.len() {
                assert(local_only(machines, list)[i] == before[i]);
            }
        }
    }
}

// ---------------------------------------------------------------------------
// Launch and readiness

/// How a process is started.
#[derive(Debug, PartialEq, Eq)]
pub enum LaunchPlan {
    Local,
    Ssh { target: String },
}

/// How a process is started on a machine so bound.
pub fn launch_plan(binding: &LaunchBinding) -> (r: LaunchPlan)
    ensures
        match *binding {
            LaunchBinding::Local => r is Local,
            LaunchBinding::Ssh { target } => r == (LaunchPlan::Ssh { target }),
        },
{
    match binding {
        LaunchBinding::Local => LaunchPlan::Local,
        LaunchBinding::Ssh { target } => LaunchPlan::Ssh { target: target.clone() },
    }
}

/// The words that run a command in an environment of the workspace.
pub open spec fn pixi_words(environment: Seq<char>) -> Seq<Seq<char>> {
    seq!["pixi"@, "run"@, "--as-is"@, "--executable"@, "-e"@, environment, "--"@]
}

/// The command, run in an environment of the workspace.
pub fn pixi_command(environment: &str, process: Vec<String>) -> (r: Vec<String>)
    ensures
        texts(r@) == pixi_words(environment@) + texts(process@),
{
    let mut argv: Vec<String> = Vec::new();
    argv.push("pixi".to_owned());
    argv.push("run".to_owned());
    argv.push("--as-is".to_owned());
    argv.push("--executable".to_owned());
    argv.push("-e".to_owned());
    argv.push(environment.to_owned());
    argv.push("--".to_owned());
    assert(texts(argv@) =~= pixi_words(environment@));
    let ghost before = argv@;
    let mut rest = process;
    argv.append(&mut rest);
    assert(texts(argv@) =~= texts(before) + texts(process@));
    argv
}

/// A target that a registry must report.
#[derive(Debug, PartialEq, Eq)]
pub struct TargetRegistryExpectedTarget {
    pub url: String,
    pub role: String,
    pub bootstrap_port: Option<u16>,
}

/// What a target registry must report, and where.
#[derive(Debug)]
pub struct TargetRegistryPlan {
    pub readiness_path: String,
    pub registry_path: String,
    pub targets_field: String,
    pub target_url_field: String,
    pub target_role_field: String,
    pub target_healthy_field: String,
    pub target_bootstrap_port_field: String,
    pub expected_targets: Vec<TargetRegistryExpectedTarget>,
}

/// How the readiness of a process is awaited.
#[derive(Debug)]
pub enum ReadinessPlan {
    Http { path: String, timeout_seconds: Option<u64>, attempt_timeout_seconds: u64 },
    HttpTargetRegistry {
        registry: TargetRegistryPlan,
        timeout_seconds: Option<u64>,
        attempt_timeout_seconds: u64,
    },
    ProcessAlive { timeout_seconds: Option<u64>, attempt_timeout_seconds: u64 },
}

/// The name of a scheme.
pub open spec fn scheme_text(scheme: TargetEndpointScheme) -> Seq<char> {
    match scheme {
        TargetEndpointScheme::Http => "http"@,
        TargetEndpointScheme::Grpc => "grpc"@,
    }
}

/// The URL under which a target is registered.
pub open spec fn target_url_text(endpoint: EndpointAssignment, scheme: TargetEndpointScheme) -> Seq<
    char,
> {
    scheme_text(scheme) + "://"@ + endpoint.host@ + ":"@ + decimal(endpoint.port as nat)
}

/// The URL under which a target is registered.
pub fn target_endpoint_url(endpoint: &EndpointAssignment, scheme: TargetEndpointScheme) -> (r:
    String)
    ensures
        r@ == target_url_text(*endpoint, scheme),
{
    let name = match scheme {
        TargetEndpointScheme::Http => "http",
        TargetEndpointScheme::Grpc => "grpc",
    };
    cat5(name, "://", endpoint.host.as_str(), ":", to_decimal(endpoint.port as u64).as_str())
}

/// The role under which the registry reports the allocation, where it does: the
/// first rank of a prefill or decode replica.
pub open spec fn registered_kind(allocation: ResolvedProcessAllocation) -> Option<ServeRoleKind> {
    match allocation.identity {
        AllocationIdentity::ModelRank { role_kind, rank, .. } => if rank == 0 && role_kind
            != ServeRoleKind::Serve {
            Some(role_kind)
        } else {
            None
        },
        AllocationIdentity::Frontend { .. } => None,
    }
}

/// Why the allocation at a position cannot be expected of a registry.
pub open spec fn expected_fault(
    registry: TargetRegistryProbe,
    allocations: Seq<ResolvedProcessAllocation>,
) -> spec_fn(int) -> Option<Seq<char>> {
    |i: int|
        {
            let allocation = allocations[i];
            match registered_kind(allocation) {
                None => None,
                Some(kind) => if kind == ServeRoleKind::Prefill && allocation.ports.at(
                    registry.prefill_bootstrap_port@,
                ) is None {
                    Some(
                        "prefill process "@ + debug_text(allocation.process@)
                            + " has no registry bootstrap port "@ + debug_text(
                            registry.prefill_bootstrap_port@,
                        ),
                    )
                } else if allocation.endpoint is None {
                    Some(
                        "process "@ + debug_text(allocation.process@)
                            + " has no endpoint for target-aware readiness"@,
                    )
                } else {
                    None
                },
            }
        }
}

/// The target is what the registry must report of the allocation.
pub open spec fn target_is(
    target: TargetRegistryExpectedTarget,
    registry: TargetRegistryProbe,
    allocation: ResolvedProcessAllocation,
) -> bool {
    &&& registered_kind(allocation) is Some
    &&& allocation.endpoint is Some
    &&& target.url@ == target_url_text(allocation.endpoint->0, registry.target_scheme)
    &&& if registered_kind(allocation) == Some(ServeRoleKind::Prefill) {
        &&& target.role == registry.prefill_role_value
        &&& allocation.ports.at(registry.prefill_bootstrap_port@) matches Some(bootstrap)
            && target.bootstrap_port == Some(bootstrap.port)
    } else {
        &&& target.role == registry.decode_role_value
        &&& target.bootstrap_port is None
    }
}

/// The allocations that a registry reports, in their order.
pub open spec fn registered(allocations: Seq<ResolvedProcessAllocation>) -> Seq<
    ResolvedProcessAllocation,
>
    decreases allocations.len(),
{
    if allocations.len() == 0 {
        Seq::empty()
    } else {
        let before = registered(allocations.drop_last());
        if registered_kind(allocations.last()) is Some {
            before.push(allocations.last())
        } else {
            before
        }
    }
}

/// The targets are what the registry must report of the allocations.
pub open spec fn targets_are(
    targets: Seq<TargetRegistryExpectedTarget>,
    registry: TargetRegistryProbe,
    allocations: Seq<ResolvedProcessAllocation>,
) -> bool {
    &&& targets.len() == registered(allocations).len()
    &&& forall|i: int|
        0 <= i < targets.len() ==> target_is(
            #[trigger] targets[i],
            registry,
            registered(allocations)[i],
        )
}

fn expected_targets(registry: &TargetRegistryProbe, allocations: &[ResolvedProcessAllocation]) -> (r:
    Result<Vec<TargetRegistryExpectedTarget>, InferlabError>)
    ensures
        match first_some(allocations@.len(), expected_fault(*registry, allocations@)) {
            Some(text) => refuses(r, text),
            None => r is Ok && targets_are(r->Ok_0@, *registry, allocations@),
        },
{
    let ghost f = expected_fault(*registry, allocations@);
    let mut out: Vec<TargetRegistryExpectedTarget> = Vec::new();
    let mut i: usize = 0;
    while i < allocations.len()
        invariant
            i <= allocations@.len(),
            f == expected_fault(*registry, allocations@),
            first_some(i as nat, f) is None,
            targets_are(out@, *registry, allocations@.take(i as int)),
        decreases allocations@.len() - i,
    {
        let allocation = &allocations[i];
        assert(allocations@.take(i + 1).drop_last() =~= allocations@.take(i as int));
        let prefill: Option<bool> = match &allocation.identity {
            AllocationIdentity::ModelRank { role_kind, rank, .. } => if *rank == 0 {
                match role_kind {
                    ServeRoleKind::Prefill => Some(true),
                    ServeRoleKind::Decode => Some(false),
                    ServeRoleKind::Serve => None,
                }
            } else {
                None
            },
            AllocationIdentity::Frontend { .. } => None,
        };
        if let Some(is_prefill) = prefill {
            let mut bootstrap_port: Option<u16> = None;
            if is_prefill {
                match allocation.ports.get(registry.prefill_bootstrap_port.as_str()) {
                    Some(bootstrap) => {
                        bootstrap_port = Some(bootstrap.port);
                    },
                    None => {
                        proof {
                            crate::search::lemma_first_some_stays(
                                (i + 1) as nat,
                                allocations@.len(),
                                f,
                            );
                        }
                        return Err(
                            InferlabError::InvalidConfig {
                                message: cat4(
                                    "prefill process ",
                                    debug(allocation.process.as_str()).as_str(),
                                    " has no registry bootstrap port ",
                                    debug(registry.prefill_bootstrap_port.as_str()).as_str(),
                                ),
                            },
                        );
                    },
                }
            }
            match &allocation.endpoint {
                None => {
                    proof {
                        crate::search::lemma_first_some_stays(
                            (i + 1) as nat,
                            allocations@.len(),
                            f,
                        );
                    }
                    return Err(
                        InferlabError::InvalidConfig {
                            message: cat3(
                                "process ",
                                debug(allocation.process.as_str()).as_str(),
                                " has no endpoint for target-aware readiness",
                            ),
                        },
                    );
                },
                Some(endpoint) => {
                    out.push(
                        TargetRegistryExpectedTarget {
                            url: target_endpoint_url(endpoint, registry.target_scheme),
                            role: if is_prefill {
                                registry.prefill_role_value.clone()
                            } else {
                                registry.decode_role_value.clone()
                            },
                            bootstrap_port,
                        },
                    );
                },
            }
        }
        i += 1;
    }
    assert(allocations@.take(i as int) =~= allocations@);
    Ok(out)
}

/// The readiness is awaited as the probe says: without bound while captures are
/// armed, and with the targets that a registry must report.
pub open spec fn readiness_is(
    plan: ReadinessPlan,
    probe: ReadinessProbe,
    timeout: u64,
    attempt_timeout: u64,
    capture_armed: bool,
    allocations: Seq<ResolvedProcessAllocation>,
) -> bool {
    let bound = if capture_armed {
        None
    } else {
        Some(timeout)
    };
    match (probe, plan) {
        (
            ReadinessProbe::Http { path },
            ReadinessPlan::Http { path: planned, timeout_seconds, attempt_timeout_seconds },
        ) => planned == path && timeout_seconds == bound && attempt_timeout_seconds
            == attempt_timeout,
        (
            ReadinessProbe::HttpTargetRegistry(registry),
            ReadinessPlan::HttpTargetRegistry {
                registry: planned,
                timeout_seconds,
                attempt_timeout_seconds,
            },
        ) => {
            &&& timeout_seconds == bound
            &&& attempt_timeout_seconds == attempt_timeout
            &&& planned.readiness_path == registry.readiness_path
            &&& planned.registry_path == registry.registry_path
            &&& planned.targets_field == registry.targets_field
            &&& planned.target_url_field == registry.target_url_field
            &&& planned.target_role_field == registry.target_role_field
            &&& planned.target_healthy_field == registry.target_healthy_field
            &&& planned.target_bootstrap_port_field == registry.target_bootstrap_port_field
            &&& targets_are(planned.expected_targets@, registry, allocations)
        },
        (
            ReadinessProbe::ProcessAlive,
            ReadinessPlan::ProcessAlive { timeout_seconds, attempt_timeout_seconds },
        ) => timeout_seconds == bound && attempt_timeout_seconds == attempt_timeout,
        _ => false,
    }
}

/// Why the readiness of a process cannot be planned.
pub open spec fn readiness_fault(
    probe: ReadinessProbe,
    allocations: Seq<ResolvedProcessAllocation>,
) -> Option<Seq<char>> {
    match probe {
        ReadinessProbe::HttpTargetRegistry(registry) => first_some(
            allocations.len(),
            expected_fault(registry, allocations),
        ),
        _ => None,
    }
}

/// How the readiness of a process is awaited.
pub fn readiness_plan(
    probe: &ReadinessProbe,
    timeout: u64,
    attempt_timeout: u64,
    capture_armed: bool,
    allocations: &[ResolvedProcessAllocation],
) -> (r: Result<ReadinessPlan, InferlabError>)
    ensures
        match readiness_fault(*probe, allocations@) {
            Some(text) => refuses(r, text),
            None => r is Ok && readiness_is(
                r->Ok_0,
                *probe,
                timeout,
                attempt_timeout,
                capture_armed,
                allocations@,
            ),
        },
{
    let timeout_seconds: Option<u64> = if capture_armed { None } else { Some(timeout) };
    match probe {
        ReadinessProbe::Http { path } => Ok(
            ReadinessPlan::Http {
                path: path.clone(),
                timeout_seconds,
                attempt_timeout_seconds: attempt_timeout,
            },
        ),
        ReadinessProbe::HttpTargetRegistry(registry) => match expected_targets(
            registry,
            allocations,
        ) {
            Err(error) => Err(error),
            Ok(expected_targets) => Ok(
                ReadinessPlan::HttpTargetRegistry {
                    registry: TargetRegistryPlan {
                        readiness_path: registry.readiness_path.clone(),
                        registry_path: registry.registry_path.clone(),
                        targets_field: registry.targets_field.clone(),
                        target_url_field: registry.target_url_field.clone(),
                        target_role_field: registry.target_role_field.clone(),
                        target_healthy_field: registry.target_healthy_field.clone(),
                        target_bootstrap_port_field: registry.target_bootstrap_port_field.clone(),
                        expected_targets,
                    },
                    timeout_seconds,
                    attempt_timeout_seconds: attempt_timeout,
                },
            ),
        },
        ReadinessProbe::ProcessAlive => Ok(
            ReadinessPlan::ProcessAlive {
                timeout_seconds,
                attempt_timeout_seconds: attempt_timeout,
            },
        ),
    }
}

/// The bytes of a number tell it.
proof fn lemma_little_endian(n: u64, m: u64)
    requires
        little_endian(n) == little_endian(m),
    ensures
        n == m,
{
    let a = little_endian(n);
    let b = little_endian(m);
    assert(a[0] == b[0] && a[1] == b[1] && a[2] == b[2] && a[3] == b[3]);
    assert(a[4] == b[4] && a[5] == b[5] && a[6] == b[6] && a[7] == b[7]);
    assert(n == m) by (bit_vector)
        requires
            n % 256 == m % 256,
            n / 0x100 % 256 == m / 0x100 % 256,
            n / 0x1_0000 % 256 == m / 0x1_0000 % 256,
            n / 0x100_0000 % 256 == m / 0x100_0000 % 256,
            n / 0x1_0000_0000 % 256 == m / 0x1_0000_0000 % 256,
            n / 0x100_0000_0000 % 256 == m / 0x100_0000_0000 % 256,
            n / 0x1_0000_0000_0000 % 256 == m / 0x1_0000_0000_0000 % 256,
            n / 0x100_0000_0000_0000 % 256 == m / 0x100_0000_0000_0000 % 256,
    ;
}

/// A framed text in front tells the text and what follows it.
proof fn lemma_framed(a: Seq<char>, rest_a: Seq<u8>, b: Seq<char>, rest_b: Seq<u8>)
    requires
        encode_utf8(a).len() <= usize::MAX,
        encode_utf8(b).len() <= usize::MAX,
        framed(a) + rest_a == framed(b) + rest_b,
    ensures
        a == b,
        rest_a == rest_b,
{
    let n = encode_utf8(a).len() as usize as u64;
    let m = encode_utf8(b).len() as usize as u64;
    let all = framed(a) + rest_a;
    assert(all.take(8) =~= little_endian(n));
    assert((framed(b) + rest_b).take(8) =~= little_endian(m));
    lemma_little_endian(n, m);
    assert(all.skip(8) =~= encode_utf8(a) + rest_a);
    assert((framed(b) + rest_b).skip(8) =~= encode_utf8(b) + rest_b);
    let k = encode_utf8(a).len() as int;
    assert(encode_utf8(a) =~= (encode_utf8(a) + rest_a).take(k));
    assert(encode_utf8(b) =~= (encode_utf8(b) + rest_b).take(k));
    assert(rest_a =~= (encode_utf8(a) + rest_a).skip(k));
    assert(rest_b =~= (encode_utf8(b) + rest_b).skip(k));
    encode_utf8_decode_utf8(a);
    encode_utf8_decode_utf8(b);
}

/// A character takes at most four bytes.
proof fn lemma_encoded_len(s: Seq<char>)
    ensures
        encode_utf8(s).len() <= 4 * s.len(),
    decreases s.len(),
{
    if s.len() > 0 {
        lemma_encoded_len(s.drop_first());
    }
}

/// What a cache is keyed by tells the software that fills it: two environments
/// with one key are one image, or the same sources and environment of a
/// workspace. The two families never meet, as no digest reads as the mark of an
/// image.
pub proof fn law_cache_keys_tell_environments_apart(
    source_a: Seq<char>,
    environment_a: Seq<char>,
    image_a: Option<Seq<char>>,
    source_b: Seq<char>,
    environment_b: Seq<char>,
    image_b: Option<Seq<char>>,
)
    requires
        encode_utf8(source_a).len() <= usize::MAX,
        encode_utf8(environment_a).len() <= usize::MAX,
        image_a is Some ==> encode_utf8(image_a->0).len() <= usize::MAX,
        encode_utf8(source_b).len() <= usize::MAX,
        encode_utf8(environment_b).len() <= usize::MAX,
        image_b is Some ==> encode_utf8(image_b->0).len() <= usize::MAX,
        source_a != "image-realization"@,
        source_b != "image-realization"@,
        environment_key_bytes(source_a, environment_a, image_a) == environment_key_bytes(
            source_b,
            environment_b,
            image_b,
        ),
    ensures
        image_a == image_b,
        image_a is None ==> source_a == source_b && environment_a == environment_b,
{
    let (first_a, second_a) = match image_a {
        Some(id) => ("image-realization"@, id),
        None => (source_a, environment_a),
    };
    let (first_b, second_b) = match image_b {
        Some(id) => ("image-realization"@, id),
        None => (source_b, environment_b),
    };
    reveal_strlit("image-realization");
    lemma_encoded_len("image-realization"@);
    lemma_framed(first_a, framed(second_a), first_b, framed(second_b));
    assert(framed(second_a) + Seq::<u8>::empty() =~= framed(second_a));
    assert(framed(second_b) + Seq::<u8>::empty() =~= framed(second_b));
    lemma_framed(second_a, Seq::empty(), second_b, Seq::empty());
}

// ---------------------------------------------------------------------------
// Where processes run

/// The machine of a process is the one at a place of the list that it is tried on.
proof fn lemma_machine_is_eligible(
    ctx: AllocationContext,
    allocations: Seq<ResolvedProcessAllocation>,
    requirements: Seq<ProcessRequirement>,
    i: int,
) -> (k: int)
    requires
        ctx.allocated(allocations, requirements),
        0 <= i < allocations.len(),
    ensures
        0 <= k < candidates_of(*ctx.placement, requirements[i]).len(),
        candidates_of(*ctx.placement, requirements[i])[k] == allocations[i].machine,
{
    assert(ctx.placed(allocations, requirements, i));
    let requirement = requirements[i];
    let list = candidates_of(*ctx.placement, requirement);
    let at = ctx.choice(allocations.take(i), requirement)->0;
    lemma_first_index(
        ctx.eligible(requirement).len(),
        ctx.fits(allocations.take(i), requirement),
    );
    if ctx.must_be_local(requirement) {
        lemma_local_within(*ctx.machines, list, at)
    } else {
        at
    }
}

/// What is kept of a list of machines is in it.
proof fn lemma_local_within(machines: Dict<MachineBinding>, list: Seq<String>, i: int) -> (k: int)
    requires
        0 <= i < local_only(machines, list).len(),
    ensures
        0 <= k < list.len(),
        list[k] == local_only(machines, list)[i],
    decreases list.len(),
{
    let before = local_only(machines, list.drop_last());
    if i < before.len() {
        lemma_local_within(machines, list.drop_last(), i)
    } else {
        list.len() - 1
    }
}

/// A process whose role is bound to machines runs on one of them: a model rank on
/// those of its role, a frontend on those of the gateway.
pub proof fn law_bound_role_runs_on_its_machines(
    ctx: AllocationContext,
    allocations: Seq<ResolvedProcessAllocation>,
    requirements: Seq<ProcessRequirement>,
    i: int,
    machines: Seq<String>,
)
    requires
        ctx.allocated(allocations, requirements),
        0 <= i < allocations.len(),
        requirements[i].fixed_devices is None,
        machines.len() > 0,
        ctx.placement.roles.at(
            match requirements[i].identity {
                ProcessRequirementIdentity::ModelRank { replica, .. } => replica.role_id@,
                ProcessRequirementIdentity::Frontend { .. } => "gateway"@,
            },
        ) matches Some(PlacementRoleBinding::Machines { machines: bound }) && bound@ == machines,
    ensures
        machines.contains(allocations[i].machine),
{
    let k = lemma_machine_is_eligible(ctx, allocations, requirements, i);
    assert(machines[k] == allocations[i].machine);
}

/// A process whose role is bound to no machine runs on one of the placement's own
/// machines; where the placement lists none, on one that some role is bound to.
pub proof fn law_unbound_role_runs_on_the_placement(
    ctx: AllocationContext,
    allocations: Seq<ResolvedProcessAllocation>,
    requirements: Seq<ProcessRequirement>,
    i: int,
)
    requires
        ctx.allocated(allocations, requirements),
        0 <= i < allocations.len(),
        requirements[i].fixed_devices is None,
        !(ctx.placement.roles.at(
            match requirements[i].identity {
                ProcessRequirementIdentity::ModelRank { replica, .. } => replica.role_id@,
                ProcessRequirementIdentity::Frontend { .. } => "gateway"@,
            },
        ) matches Some(PlacementRoleBinding::Machines { machines }) && machines@.len() > 0),
    ensures
        ctx.placement.machines@.len() > 0 ==> ctx.placement.machines@.contains(
            allocations[i].machine,
        ),
        ctx.placement.machines@.len() == 0 ==> exists|k: int|
            0 <= k < ctx.placement.roles.entries@.len() && {
                (#[trigger] ctx.placement.roles.entries@[k]).1 matches PlacementRoleBinding::Machines {
                    machines,
                } && lists(machines@, allocations[i].machine@)
            },
{
    let k = lemma_machine_is_eligible(ctx, allocations, requirements, i);
    if ctx.placement.machines@.len() > 0 {
        assert(ctx.placement.machines@[k] == allocations[i].machine);
    } else {
        let pool = pool_of(ctx.placement.roles.entries@);
        assert(pool_names(pool)[k] == pool[k].0);
        lemma_pool_of_roles(ctx.placement.roles.entries@, k);
    }
}

/// A machine of a pool is one of some role.
proof fn lemma_pool_of_roles(roles: Seq<(String, PlacementRoleBinding)>, i: int) -> (k: int)
    requires
        0 <= i < pool_of(roles).len(),
    ensures
        0 <= k < roles.len(),
        roles[k].1 matches PlacementRoleBinding::Machines { machines } && lists(
            machines@,
            pool_of(roles)[i].0@,
        ),
    decreases roles.len(),
{
    let before = pool_of(roles.drop_last());
    match roles.last().1 {
        PlacementRoleBinding::Replicas { .. } => lemma_pool_of_roles(roles.drop_last(), i),
        PlacementRoleBinding::Machines { machines } => {
            lemma_pool_with(before, machines@, i);
            if lists(machines@, pool_of(roles)[i].0@) {
                roles.len() - 1
            } else {
                let m = choose|m: int|
                    0 <= m < before.len() && (#[trigger] before[m]).0@ == pool_of(roles)[i].0@;
                lemma_pool_of_roles(roles.drop_last(), m)
            }
        },
    }
}

/// A name of a pool with more machines was in the pool or is one of them.
proof fn lemma_pool_with(pool: Seq<(String, ())>, machines: Seq<String>, i: int)
    requires
        0 <= i < pool_with(pool, machines).len(),
    ensures
        lists(machines, pool_with(pool, machines)[i].0@) || exists|m: int|
            0 <= m < pool.len() && (#[trigger] pool[m]).0@ == pool_with(pool, machines)[i].0@,
    decreases machines.len(),
{
    if machines.len() == 0 {
        assert(pool[i].0@ == pool_with(pool, machines)[i].0@);
    } else {
        let shorter = machines.drop_last();
        let before = pool_with(pool, shorter);
        let after = pool_with(pool, machines);
        let name = machines.last();
        crate::dict::lemma_rank(before, name@);
        let at = crate::dict::rank(before, name@);
        if after[i].0@ == name@ {
            assert(machines[machines.len() - 1]@ == after[i].0@);
        } else {
            let k = if after.len() == before.len() || i < at {
                i
            } else {
                i - 1
            };
            assert(before[k].0@ == after[i].0@);
            lemma_pool_with(pool, shorter, k);
            if lists(shorter, before[k].0@) {
                let m = choose|m: int| 0 <= m < shorter.len() && shorter[m]@ == before[k].0@;
                assert(machines[m]@ == after[i].0@);
            }
        }
    }
}

/// A process that a placement binds to devices has exactly these, on the machine
/// that they are on, and the endpoint port that is bound with them.
pub proof fn law_bound_devices_are_given(
    ctx: AllocationContext,
    allocations: Seq<ResolvedProcessAllocation>,
    requirements: Seq<ProcessRequirement>,
    i: int,
)
    requires
        ctx.allocated(allocations, requirements),
        0 <= i < allocations.len(),
    ensures
        requirements[i].fixed_devices matches Some(fixed) ==> {
            &&& allocations[i].machine == fixed.machine
            &&& allocations[i].devices@ == fixed.devices@
            &&& (fixed.endpoint_port matches Some(port) ==> allocations[i].endpoint matches Some(at)
                && at.port == port)
        },
{
    let k = lemma_machine_is_eligible(ctx, allocations, requirements, i);
    assert(ctx.placed(allocations, requirements, i));
}

/// A process that is bound to no devices has as many as it asks for, each a device
/// of its machine.
pub proof fn law_process_has_the_devices_that_it_asks_for(
    ctx: AllocationContext,
    allocations: Seq<ResolvedProcessAllocation>,
    requirements: Seq<ProcessRequirement>,
    i: int,
)
    requires
        ctx.allocated(allocations, requirements),
        0 <= i < allocations.len(),
    ensures
        requirements[i].fixed_devices is None ==> allocations[i].devices@.len()
            == requirements[i].device_count,
        ctx.machines.at(allocations[i].machine@) matches Some(machine) && forall|k: int|
            0 <= k < allocations[i].devices@.len() ==> machine.devices@.contains(
                #[trigger] allocations[i].devices@[k],
            ),
        requirements[i].identity is Frontend ==> allocations[i].devices@.len() == 0,
{
    assert(ctx.placed(allocations, requirements, i));
    let previous = allocations.take(i);
    let name = allocations[i].machine@;
    let machine = ctx.machines.at(name)->0;
    let taken = devices_taken(previous, name);
    lemma_first_index(ctx.eligible(requirements[i]).len(), ctx.fits(previous, requirements[i]));
    lemma_unused(machine.devices@, taken);
    assert forall|k: int| 0 <= k < allocations[i].devices@.len() implies machine.devices@.contains(
        #[trigger] allocations[i].devices@[k],
    ) by {
        match requirements[i].fixed_devices {
            Some(fixed) => {
                assert(device_refusal(machine, taken, requirements[i]) is None);
                assert(machine.devices@.contains(fixed.devices@[k]));
            },
            None => {
                assert(allocations[i].devices@[k] == unused(machine.devices@, taken)[k]);
            },
        }
    }
}

/// Nothing is in use of a machine that no process is on.
proof fn lemma_free_machine(allocations: Seq<ResolvedProcessAllocation>, name: Seq<char>)
    requires
        forall|j: int| 0 <= j < allocations.len() ==> (#[trigger] allocations[j]).machine@ != name,
    ensures
        devices_taken(allocations, name).len() == 0,
        ports_taken(allocations, name).len() == 0,
    decreases allocations.len(),
{
    if allocations.len() > 0 {
        let before = allocations.drop_last();
        assert forall|j: int| 0 <= j < before.len() implies (#[trigger] before[j]).machine@
            != name by {
            assert(before[j] == allocations[j]);
        }
        assert(allocations[allocations.len() - 1].machine@ != name);
        lemma_free_machine(before, name);
    }
}

/// All of a list is unused where nothing is in use.
proof fn lemma_all_unused<T>(list: Seq<T>, used: Seq<T>)
    requires
        used.len() == 0,
    ensures
        unused(list, used) == list,
    decreases list.len(),
{
    if list.len() > 0 {
        lemma_all_unused(list.drop_last(), used);
        assert(list.drop_last().push(list.last()) =~= list);
    } else {
        assert(unused(list, used) =~= list);
    }
}

/// Of the machines that a role is bound to, an earlier one is preferred: where the
/// machine at a place is free and large enough, the process is not on a later one
/// alone.
pub proof fn law_earlier_machine_is_preferred(
    ctx: AllocationContext,
    allocations: Seq<ResolvedProcessAllocation>,
    requirements: Seq<ProcessRequirement>,
    i: int,
    machines: Seq<String>,
    k: int,
)
    requires
        ctx.allocated(allocations, requirements),
        0 <= i < allocations.len(),
        requirements[i].fixed_devices is None,
        optional_text(ctx.local_process) != Some(requirements[i].id@),
        ctx.placement.roles.at(
            match requirements[i].identity {
                ProcessRequirementIdentity::ModelRank { replica, .. } => replica.role_id@,
                ProcessRequirementIdentity::Frontend { .. } => "gateway"@,
            },
        ) matches Some(PlacementRoleBinding::Machines { machines: bound }) && bound@ == machines,
        0 <= k < machines.len(),
        ctx.machines.at(machines[k]@) matches Some(machine) && machine.devices@.len()
            >= requirements[i].device_count && machine.ports@.len() > requirements[i].ports@.len(),
        forall|j: int| 0 <= j < i ==> (#[trigger] allocations[j]).machine@ != machines[k]@,
    ensures
        exists|m: int| 0 <= m <= k && #[trigger] machines[m] == allocations[i].machine,
{
    assert(ctx.placed(allocations, requirements, i));
    let requirement = requirements[i];
    let previous = allocations.take(i);
    let fits = ctx.fits(previous, requirement);
    let name = machines[k]@;
    assert forall|j: int| 0 <= j < previous.len() implies (#[trigger] previous[j]).machine@
        != name by {
        assert(previous[j] == allocations[j]);
    }
    lemma_free_machine(previous, name);
    let machine = ctx.machines.at(name)->0;
    lemma_all_unused(machine.devices@, devices_taken(previous, name));
    lemma_first_index(ctx.eligible(requirement).len(), fits);
    assert(ctx.eligible(requirement) == machines);
    assert(fits(k));
    let at = ctx.choice(previous, requirement)->0;
    assert(at <= k);
    assert(machines[at] == allocations[i].machine);
}

/// A named port of a process has its number.
proof fn lemma_named_port_is_there(names: Seq<String>, host: String, ports: Seq<u16>, i: int)
    requires
        names.len() == ports.len(),
        0 <= i < names.len(),
    ensures
        crate::dict::in_order(named_ports(names, host, ports)),
        crate::dict::lookup(named_ports(names, host, ports), names[i]@) matches Some(at) && at.host
            == host && ports.contains(at.port),
    decreases names.len(),
{
    let shorter = names.drop_last();
    let fewer = ports.drop_last();
    let before = named_ports(shorter, host, fewer);
    let value = EndpointAssignment { host, port: ports.last() };
    lemma_named_ports_in_order(shorter, host, fewer);
    lemma_named_ports_in_order(names, host, ports);
    crate::dict::lemma_with_entry_lookup(before, names.last(), value, names[i]@);
    assert(ports[ports.len() - 1] == ports.last());
    if names[i]@ != names.last()@ {
        assert(shorter[i] == names[i]);
        lemma_named_port_is_there(shorter, host, fewer, i);
        let at = crate::dict::lookup(before, names[i]@)->0;
        let m = choose|m: int| 0 <= m < fewer.len() && fewer[m] == at.port;
        assert(ports[m] == at.port);
    }
}

proof fn lemma_named_ports_in_order(names: Seq<String>, host: String, ports: Seq<u16>)
    requires
        names.len() == ports.len(),
    ensures
        crate::dict::in_order(named_ports(names, host, ports)),
    decreases names.len(),
{
    if names.len() > 0 {
        let before = named_ports(names.drop_last(), host, ports.drop_last());
        lemma_named_ports_in_order(names.drop_last(), host, ports.drop_last());
        crate::dict::lemma_with_entry_in_order(
            before,
            names.last(),
            EndpointAssignment { host, port: ports.last() },
        );
    }
}

/// A process has an endpoint and each port that it names, all on the host of its
/// machine and among the machine's ports, and no named one is that of its endpoint.
pub proof fn law_process_has_the_ports_that_it_names(
    ctx: AllocationContext,
    allocations: Seq<ResolvedProcessAllocation>,
    requirements: Seq<ProcessRequirement>,
    i: int,
    k: int,
)
    requires
        ctx.allocated(allocations, requirements),
        0 <= i < allocations.len(),
        0 <= k < requirements[i].ports@.len(),
    ensures
        ctx.machines.at(allocations[i].machine@) matches Some(machine) && {
            &&& allocations[i].endpoint matches Some(endpoint) && {
                &&& endpoint.host == machine.host
                &&& machine.ports@.contains(endpoint.port)
                &&& allocations[i].ports.at(requirements[i].ports@[k]@) matches Some(at) && {
                    &&& at.host == machine.host
                    &&& machine.ports@.contains(at.port)
                    &&& at.port != endpoint.port
                }
            }
        },
{
    assert(ctx.placed(allocations, requirements, i));
    let requirement = requirements[i];
    let previous = allocations.take(i);
    let name = allocations[i].machine@;
    let machine = ctx.machines.at(name)->0;
    let taken = ports_taken(previous, name);
    let endpoint = endpoint_chosen(machine, taken, requirement);
    lemma_unused(machine.ports@, taken);
    lemma_unused(machine.ports@, taken.push(endpoint));
    assert(endpoint_refusal(machine, name, taken, requirement) is None);
    let named = named_chosen(machine, taken, endpoint, requirement.ports@.len());
    lemma_named_port_is_there(requirement.ports@, machine.host, named, k);
    let at = allocations[i].ports.at(requirement.ports@[k]@)->0;
    let m = choose|m: int| 0 <= m < named.len() && named[m] == at.port;
    assert(named[m] == unused(machine.ports@, taken.push(endpoint))[m]);
    assert(taken.push(endpoint)[taken.len() as int] == endpoint);
}

/// A process is launched as its machine is bound, after those that it depends on,
/// and each allocation is that of the process at its place.
pub proof fn law_allocation_is_that_of_its_process(
    ctx: AllocationContext,
    allocations: Seq<ResolvedProcessAllocation>,
    requirements: Seq<ProcessRequirement>,
    i: int,
)
    requires
        ctx.allocated(allocations, requirements),
        0 <= i < allocations.len(),
    ensures
        allocations[i].process == requirements[i].id,
        allocations[i].dependencies@ == requirements[i].launch_dependencies@,
        ctx.machines.at(allocations[i].machine@) matches Some(machine) && allocations[i].launch
            == machine.launch,
        allocations[i].runtime_cache.namespace.process@ == requirements[i].id@,
        allocations[i].runtime_cache.namespace.machine@ == allocations[i].machine@,
        requirements[i].identity matches ProcessRequirementIdentity::ModelRank {
            role,
            replica,
            rank: required,
            ..
        } ==> allocations[i].identity matches AllocationIdentity::ModelRank {
            role: role_id,
            role_kind,
            replica: index,
            rank,
            ..
        } && role_id == replica.role_id && role_kind == role.kind && index == replica.replica_index
            && rank == required,
        requirements[i].identity is Frontend ==> allocations[i].identity is Frontend,
{
    assert(ctx.placed(allocations, requirements, i));
}

/// The model of a rank is where its machine has it; only a machine without a place
/// of its own for it uses the common one.
pub proof fn law_own_model_of_a_machine_is_preferred(
    ctx: AllocationContext,
    allocations: Seq<ResolvedProcessAllocation>,
    requirements: Seq<ProcessRequirement>,
    i: int,
)
    requires
        ctx.allocated(allocations, requirements),
        0 <= i < allocations.len(),
    ensures
        allocations[i].identity matches AllocationIdentity::ModelRank {
            model_locator,
            model_locator_source,
            ..
        } ==> match ctx.weight.machine_locators.at(allocations[i].machine@) {
            Some(own) => model_locator == own && model_locator_source
                == ModelLocatorSource::Machine,
            None => ctx.weight.locator == Some(model_locator) && model_locator_source
                == ModelLocatorSource::Fallback,
        },
{
    assert(ctx.placed(allocations, requirements, i));
}

// ---------------------------------------------------------------------------
// What is awaited

/// A registry must report the first rank of every prefill and decode replica: at its
/// endpoint, in its role, and a prefill one with its bootstrap port.
pub proof fn law_every_first_rank_is_expected(
    targets: Seq<TargetRegistryExpectedTarget>,
    registry: TargetRegistryProbe,
    allocations: Seq<ResolvedProcessAllocation>,
    i: int,
) -> (t: int)
    requires
        targets_are(targets, registry, allocations),
        0 <= i < allocations.len(),
        allocations[i].identity matches AllocationIdentity::ModelRank { role_kind, rank, .. } && rank
            == 0 && role_kind != ServeRoleKind::Serve,
    ensures
        0 <= t < targets.len(),
        allocations[i].endpoint matches Some(endpoint) && targets[t].url@ == target_url_text(
            endpoint,
            registry.target_scheme,
        ),
        allocations[i].identity matches AllocationIdentity::ModelRank { role_kind, .. } && {
            &&& role_kind == ServeRoleKind::Prefill ==> targets[t].role
                == registry.prefill_role_value && (allocations[i].ports.at(
                registry.prefill_bootstrap_port@,
            ) matches Some(at) && targets[t].bootstrap_port == Some(at.port))
            &&& role_kind == ServeRoleKind::Decode ==> targets[t].role
                == registry.decode_role_value && targets[t].bootstrap_port is None
        },
{
    let t = lemma_registered_at(allocations, i);
    assert(target_is(targets[t], registry, registered(allocations)[t]));
    t
}

proof fn lemma_registered_at(allocations: Seq<ResolvedProcessAllocation>, i: int) -> (t: int)
    requires
        0 <= i < allocations.len(),
        registered_kind(allocations[i]) is Some,
    ensures
        0 <= t < registered(allocations).len(),
        registered(allocations)[t] == allocations[i],
    decreases allocations.len(),
{
    let before = registered(allocations.drop_last());
    if i < allocations.len() - 1 {
        let t = lemma_registered_at(allocations.drop_last(), i);
        assert(registered(allocations)[t] == before[t]);
        t
    } else {
        before.len() as int
    }
}

/// A registry must report nothing but first ranks of prefill and decode replicas.
pub proof fn law_only_first_ranks_are_expected(
    targets: Seq<TargetRegistryExpectedTarget>,
    registry: TargetRegistryProbe,
    allocations: Seq<ResolvedProcessAllocation>,
    t: int,
) -> (i: int)
    requires
        targets_are(targets, registry, allocations),
        0 <= t < targets.len(),
    ensures
        0 <= i < allocations.len(),
        allocations[i].identity matches AllocationIdentity::ModelRank { role_kind, rank, .. } && rank
            == 0 && role_kind != ServeRoleKind::Serve,
        allocations[i].endpoint matches Some(endpoint) && targets[t].url@ == target_url_text(
            endpoint,
            registry.target_scheme,
        ),
{
    assert(target_is(targets[t], registry, registered(allocations)[t]));
    lemma_registered_from(allocations, t)
}

proof fn lemma_registered_from(allocations: Seq<ResolvedProcessAllocation>, t: int) -> (i: int)
    requires
        0 <= t < registered(allocations).len(),
    ensures
        0 <= i < allocations.len(),
        registered(allocations)[t] == allocations[i],
        registered_kind(allocations[i]) is Some,
    decreases allocations.len(),
{
    let before = registered(allocations.drop_last());
    if t < before.len() {
        let i = lemma_registered_from(allocations.drop_last(), t);
        assert(allocations.drop_last()[i] == allocations[i]);
        i
    } else {
        allocations.len() - 1
    }
}

/// A process is awaited as its probe says, without bound while a capture is armed
/// and within the timeout of the server otherwise; an attempt is bounded always.
pub proof fn law_readiness_is_bounded_unless_a_capture_is_armed(
    plan: ReadinessPlan,
    probe: ReadinessProbe,
    timeout: u64,
    attempt_timeout: u64,
    capture_armed: bool,
    allocations: Seq<ResolvedProcessAllocation>,
)
    requires
        readiness_is(plan, probe, timeout, attempt_timeout, capture_armed, allocations),
    ensures
        ({
            let (bound, attempt) = match plan {
                ReadinessPlan::Http { timeout_seconds, attempt_timeout_seconds, .. } => (
                    timeout_seconds,
                    attempt_timeout_seconds,
                ),
                ReadinessPlan::HttpTargetRegistry {
                    timeout_seconds,
                    attempt_timeout_seconds,
                    ..
                } => (timeout_seconds, attempt_timeout_seconds),
                ReadinessPlan::ProcessAlive { timeout_seconds, attempt_timeout_seconds } => (
                    timeout_seconds,
                    attempt_timeout_seconds,
                ),
            };
            &&& attempt == attempt_timeout
            &&& capture_armed ==> bound is None
            &&& !capture_armed ==> bound == Some(timeout)
        }),
        probe is Http <==> plan is Http,
        probe is HttpTargetRegistry <==> plan is HttpTargetRegistry,
        probe is ProcessAlive <==> plan is ProcessAlive,
        probe matches ReadinessProbe::Http { path } ==> plan matches ReadinessPlan::Http {
            path: asked,
            ..
        } && asked == path,
{
}

/// The readiness of a process can be planned over a registry exactly where each first rank
/// of a prefill or decode replica has an endpoint, and each of prefill the bootstrap port.
pub proof fn law_registry_expects_what_can_be_reached(
    probe: ReadinessProbe,
    allocations: Seq<ResolvedProcessAllocation>,
)
    ensures
        readiness_fault(probe, allocations) is None <==> (
        probe matches ReadinessProbe::HttpTargetRegistry(registry) ==> forall|i: int|
            0 <= i < allocations.len() ==> ((
            #[trigger] allocations[i]).identity matches AllocationIdentity::ModelRank {
                role_kind,
                rank,
                ..
            } ==> (rank == 0 && role_kind != ServeRoleKind::Serve ==> allocations[i].endpoint
                is Some && (role_kind == ServeRoleKind::Prefill ==> allocations[i].ports.at(
                registry.prefill_bootstrap_port@,
            ) is Some)))),
{
    if let ReadinessProbe::HttpTargetRegistry(registry) = probe {
        let f = expected_fault(registry, allocations);
        crate::search::lemma_first_some_none(allocations.len(), f);
        if readiness_fault(probe, allocations) is None {
            assert forall|i: int| 0 <= i < allocations.len() implies ((
            #[trigger] allocations[i]).identity matches AllocationIdentity::ModelRank {
                role_kind,
                rank,
                ..
            } ==> (rank == 0 && role_kind != ServeRoleKind::Serve ==> allocations[i].endpoint
                is Some && (role_kind == ServeRoleKind::Prefill ==> allocations[i].ports.at(
                registry.prefill_bootstrap_port@,
            ) is Some))) by {
                assert(f(i) is None);
            }
        } else {
            let i = choose|i: int| 0 <= i < allocations.len() && (#[trigger] f(i)) is Some;
            assert(allocations[i] == allocations[i]);
            assert(f(i) is Some);
        }
    }
}

/// The first process on a machine, where it is bound to nothing, has the first devices of the
/// machine and its first port, in the machine's own order.
pub proof fn law_first_process_has_the_first_devices(
    ctx: AllocationContext,
    allocations: Seq<ResolvedProcessAllocation>,
    requirements: Seq<ProcessRequirement>,
    i: int,
)
    requires
        ctx.allocated(allocations, requirements),
        0 <= i < allocations.len(),
        requirements[i].fixed_devices is None,
        forall|j: int|
            0 <= j < i ==> (#[trigger] allocations[j]).machine@ != allocations[i].machine@,
    ensures
        ctx.machines.at(allocations[i].machine@) matches Some(machine) && {
            &&& requirements[i].device_count <= machine.devices@.len()
            &&& allocations[i].devices@ == machine.devices@.take(
                requirements[i].device_count as int,
            )
            &&& machine.ports@.len() > 0
            &&& allocations[i].endpoint matches Some(endpoint)
            &&& endpoint.port == machine.ports@[0]
        },
{
    assert(ctx.placed(allocations, requirements, i));
    law_process_has_the_devices_that_it_asks_for(ctx, allocations, requirements, i);
    let previous = allocations.take(i);
    let name = allocations[i].machine@;
    let machine = ctx.machines.at(name)->0;
    assert forall|j: int| 0 <= j < previous.len() implies (#[trigger] previous[j]).machine@
        != name by {
        assert(previous[j] == allocations[j]);
    }
    lemma_free_machine(previous, name);
    lemma_all_unused(machine.devices@, devices_taken(previous, name));
    lemma_all_unused(machine.ports@, ports_taken(previous, name));
    let fits = ctx.fits(previous, requirements[i]);
    lemma_first_index(ctx.eligible(requirements[i]).len(), fits);
    assert(fits(ctx.choice(previous, requirements[i])->0));
}

/// Free entries are taken in the order of their list: of two that are free the earlier one
/// comes first.
pub proof fn law_free_entries_keep_their_order<T>(list: Seq<T>, used: Seq<T>, i: int, j: int) -> (at: (
    int,
    int,
))
    requires
        0 <= i < j < list.len(),
        !used.contains(list[i]),
        !used.contains(list[j]),
    ensures
        0 <= at.0 < at.1 < unused(list, used).len(),
        unused(list, used)[at.0] == list[i],
        unused(list, used)[at.1] == list[j],
    decreases list.len(),
{
    let fewer = list.drop_last();
    if j < list.len() - 1 {
        law_free_entries_keep_their_order(fewer, used, i, j)
    } else {
        let a = lemma_free_entry(fewer, used, i);
        (a, unused(fewer, used).len() as int)
    }
}

/// A free entry is among the free ones.
proof fn lemma_free_entry<T>(list: Seq<T>, used: Seq<T>, i: int) -> (at: int)
    requires
        0 <= i < list.len(),
        !used.contains(list[i]),
    ensures
        0 <= at < unused(list, used).len(),
        unused(list, used)[at] == list[i],
    decreases list.len(),
{
    let fewer = list.drop_last();
    if i < list.len() - 1 {
        lemma_free_entry(fewer, used, i)
    } else {
        unused(fewer, used).len() as int
    }
}

/// The cache of a process is kept where its machine says, else in the workspace of the
/// machine, else in that of the control plane; it is named by the sources, the environment
/// and the image that fill it, and a rank knows how many there are.
pub proof fn law_cache_is_kept_where_the_machine_says(
    ctx: AllocationContext,
    allocations: Seq<ResolvedProcessAllocation>,
    requirements: Seq<ProcessRequirement>,
    i: int,
)
    requires
        ctx.allocated(allocations, requirements),
        0 <= i < allocations.len(),
    ensures
        ctx.machines.at(allocations[i].machine@) matches Some(machine) && {
            let cache = allocations[i].runtime_cache;
            let below = ".inferlab/cache/runtime"@;
            &&& machine.cache_root matches Some(root) ==> cache.storage_root@ == root@
                && cache.storage_root_source is MachineBinding
            &&& machine.cache_root is None ==> cache.storage_root_source is WorkspaceDefault
            &&& machine.cache_root is None && machine.workspace is Some ==> cache.storage_root@
                == joined_path(machine.workspace->0@, below)
            &&& machine.cache_root is None && machine.workspace is None ==> cache.storage_root@
                == joined_path(ctx.workspace_root@, below)
            &&& cache.namespace.workspace_source_digest@ == ctx.source_digest@
            &&& cache.namespace.pixi_environment@ == ctx.pixi_environment@
            &&& ctx.image_identity matches Some(image) ==> (
            cache.namespace.image_id matches Some(id) && id@ == image@)
            &&& ctx.image_identity is None ==> cache.namespace.image_id is None
        },
        allocations[i].identity matches AllocationIdentity::ModelRank { rank_count, .. } ==> (
        requirements[i].identity matches ProcessRequirementIdentity::ModelRank { replica, .. }
            && rank_count == ranks_required(requirements, replica.id@)),
{
    assert(ctx.placed(allocations, requirements, i));
}

} // verus!
