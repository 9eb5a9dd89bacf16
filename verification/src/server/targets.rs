//! Which machines are checked and probed before a server is launched.

use crate::dict::{lookup, with_entry, Dict};
use crate::error::{refuses, InferlabError};
use crate::paths::{join_path, joined_path};
use crate::resolve::allocation::LaunchPlan;
use crate::resolve::composition::CheckRealization;
use crate::resolve::realization::ProcessPlan;
use crate::search::first_some;
use crate::server::checks::PlannedEnvironmentCheck;
use crate::server::hardware::{sort_unique, sorted_unique};
use crate::server::network::{
    first_places, machine_table, machines_by_name, probe_faults, probed_ids, probes_follow,
    resolve, shared_interface, shown_machines, NetworkPlan, ProbeOutcome,
};
use crate::server::startup::PreflightPlan;
use crate::text::{cat2, cat3, debug, debug_text, joined, same, texts};
use vstd::prelude::*;
use vstd::string::*;

verus! {

/// The process is launched on another machine.
pub open spec fn remote(process: ProcessPlan) -> bool {
    process.launch is Ssh
}

/// Whether an earlier process is launched on the same other machine.
pub open spec fn hosted_before(processes: Seq<ProcessPlan>, i: int) -> bool {
    exists|j: int|
        0 <= j < i && remote(#[trigger] processes[j]) && processes[j].machine@
            == processes[i].machine@
}

/// The first processes on each other machine, in their order.
pub open spec fn remote_hosts(processes: Seq<ProcessPlan>, n: int) -> Seq<usize>
    decreases n,
{
    if n <= 0 {
        Seq::empty()
    } else {
        let before = remote_hosts(processes, n - 1);
        if remote(processes[n - 1]) && !hosted_before(processes, n - 1) {
            before.push((n - 1) as usize)
        } else {
            before
        }
    }
}

/// The processes whose machines' own installations are checked: the first on each
/// other machine, in their order.
pub fn remote_check_hosts(processes: &[ProcessPlan]) -> (r: Vec<usize>)
    ensures
        r@ == remote_hosts(processes@, processes@.len() as int),
{
    let mut out: Vec<usize> = Vec::new();
    let mut i: usize = 0;
    assert(out@ =~= remote_hosts(processes@, 0));
    while i < processes.len()
        invariant
            i <= processes@.len(),
            out@ == remote_hosts(processes@, i as int),
        decreases processes@.len() - i,
    {
        if let LaunchPlan::Ssh { .. } = &processes[i].launch {
            let mut seen: bool = false;
            let mut j: usize = 0;
            while j < i
                invariant
                    j <= i < processes@.len(),
                    seen == exists|k: int|
                        0 <= k < j && remote(#[trigger] processes@[k]) && processes@[k].machine@
                            == processes@[i as int].machine@,
                decreases i - j,
            {
                if let LaunchPlan::Ssh { .. } = &processes[j].launch {
                    if same(processes[j].machine.as_str(), processes[i].machine.as_str()) {
                        assert(remote(processes@[j as int]));
                        seen = true;
                    }
                }
                j += 1;
            }
            if !seen {
                out.push(i);
            }
        }
        i += 1;
    }
    out
}

/// The executable that a remote check is run with: the first word of the process's
/// command.
pub fn check_executable<'a>(process: &'a ProcessPlan) -> (r: Result<&'a str, String>)
    ensures
        if process.command.argv@.len() == 0 {
            r matches Err(found) && found@ == "process "@ + debug_text(process.id@)
                + " has no executable"@
        } else {
            r matches Ok(found) && found@ == process.command.argv@[0]@
        },
{
    if process.command.argv.len() == 0 {
        Err(cat3("process ", debug(process.id.as_str()).as_str(), " has no executable"))
    } else {
        Ok(process.command.argv[0].as_str())
    }
}

// ---------------------------------------------------------------------------
// Hardware

/// The machines that host processes, by name, each with the place of its first one.
pub open spec fn first_hosts(processes: Seq<ProcessPlan>) -> Seq<(String, usize)>
    decreases processes.len(),
{
    if processes.len() == 0 {
        Seq::empty()
    } else {
        let before = first_hosts(processes.drop_last());
        let last = processes[processes.len() - 1];
        if lookup(before, last.machine@) is None {
            with_entry(before, last.machine, (processes.len() - 1) as usize)
        } else {
            before
        }
    }
}

/// The devices of the first processes that run on a machine.
pub open spec fn devices_on(processes: Seq<ProcessPlan>, n: int, machine: Seq<char>) -> Seq<u32>
    decreases n,
{
    if n <= 0 {
        Seq::empty()
    } else {
        let before = devices_on(processes, n - 1, machine);
        if processes[n - 1].machine@ == machine {
            before + processes[n - 1].allocation.devices@
        } else {
            before
        }
    }
}

/// A machine whose devices are probed.
#[derive(Debug)]
pub struct ProbeTarget {
    pub machine: String,
    /// The process through whose launch path the machine is reached.
    pub process: usize,
    /// The devices that processes on the machine were given, in order, each once.
    pub devices: Vec<u32>,
}

fn collect_devices(processes: &[ProcessPlan], machine: &str) -> (r: Vec<u32>)
    ensures
        r@ == sorted_unique(devices_on(processes@, processes@.len() as int, machine@)),
{
    let mut all: Vec<u32> = Vec::new();
    let mut i: usize = 0;
    assert(all@ =~= devices_on(processes@, 0, machine@));
    while i < processes.len()
        invariant
            i <= processes@.len(),
            all@ == devices_on(processes@, i as int, machine@),
        decreases processes@.len() - i,
    {
        if same(processes[i].machine.as_str(), machine) {
            let devices = &processes[i].allocation.devices;
            let ghost before = all@;
            let mut j: usize = 0;
            assert(before + devices@.take(0) =~= before);
            while j < devices.len()
                invariant
                    j <= devices@.len(),
                    all@ == before + devices@.take(j as int),
                decreases devices@.len() - j,
            {
                all.push(devices[j]);
                proof {
                    assert(devices@.take(j + 1) =~= devices@.take(j as int).push(
                        devices@[j as int],
                    ));
                    assert(all@ =~= before + devices@.take(j + 1));
                }
                j += 1;
            }
            assert(devices@.take(j as int) =~= devices@);
        }
        i += 1;
    }
    sort_unique(all.as_slice())
}

/// The machines whose devices are probed before any process is launched: each that
/// hosts a process, by name, with all devices that its processes were given.
pub fn probe_targets(processes: &[ProcessPlan]) -> (r: Vec<ProbeTarget>)
    ensures
        r@.len() == first_hosts(processes@).len(),
        forall|k: int|
            0 <= k < r@.len() ==> {
                let target = #[trigger] r@[k];
                &&& target.machine == first_hosts(processes@)[k].0
                &&& target.process == first_hosts(processes@)[k].1
                &&& target.devices@ == sorted_unique(
                    devices_on(processes@, processes@.len() as int, target.machine@),
                )
            },
{
    let mut hosts: Dict<usize> = Dict::new();
    let mut i: usize = 0;
    assert(processes@.take(0) =~= Seq::<ProcessPlan>::empty());
    assert(hosts.entries@ =~= Seq::<(String, usize)>::empty());
    while i < processes.len()
        invariant
            i <= processes@.len(),
            hosts.wf(),
            hosts.entries@ == first_hosts(processes@.take(i as int)),
        decreases processes@.len() - i,
    {
        proof {
            assert(processes@.take(i + 1).drop_last() =~= processes@.take(i as int));
            assert(processes@.take(i + 1)[i as int] == processes@[i as int]);
        }
        if !hosts.contains_key(processes[i].machine.as_str()) {
            hosts.insert(processes[i].machine.clone(), i);
        }
        i += 1;
    }
    assert(processes@.take(i as int) =~= processes@);
    let mut out: Vec<ProbeTarget> = Vec::new();
    let mut k: usize = 0;
    while k < hosts.entries.len()
        invariant
            k <= hosts.entries@.len(),
            hosts.entries@ == first_hosts(processes@),
            out@.len() == k,
            forall|j: int|
                0 <= j < k ==> {
                    let target = #[trigger] out@[j];
                    &&& target.machine == first_hosts(processes@)[j].0
                    &&& target.process == first_hosts(processes@)[j].1
                    &&& target.devices@ == sorted_unique(
                        devices_on(processes@, processes@.len() as int, target.machine@),
                    )
                },
        decreases hosts.entries@.len() - k,
    {
        let machine = hosts.entries[k].0.clone();
        let devices = collect_devices(processes, machine.as_str());
        out.push(ProbeTarget { machine, process: hosts.entries[k].1, devices });
        k += 1;
    }
    out
}

// ---------------------------------------------------------------------------
// Laws

/// The first process on each other machine is one of the processes.
proof fn lemma_remote_hosts(processes: Seq<ProcessPlan>, n: int)
    requires
        0 <= n <= processes.len() <= usize::MAX,
    ensures
        remote_hosts(processes, n).len() <= n,
        forall|k: int|
            0 <= k < remote_hosts(processes, n).len() ==> (#[trigger] remote_hosts(processes, n)[k])
                < n,
    decreases n,
{
    if n > 0 {
        lemma_remote_hosts(processes, n - 1);
    }
}

/// The names of the machines of processes.
pub open spec fn machines_at(processes: Seq<ProcessPlan>, places: Seq<usize>) -> Seq<String> {
    places.map_values(|place: usize| processes[place as int].machine)
}

/// What comes before any process is launched. The declared checks are run where the
/// server runs from the workspace: those of an image were run when it was built.
pub fn preflight_plan(
    realization: CheckRealization,
    checks: &[PlannedEnvironmentCheck],
    processes: &[ProcessPlan],
) -> (r: PreflightPlan)
    requires
        processes@.len() < usize::MAX,
    ensures
        r.checks == (realization == CheckRealization::LocalWorkspace && checks@.len() > 0),
        r.hosts@ == machines_at(processes@, remote_hosts(processes@, processes@.len() as int)),
        r.hosts@.len() < usize::MAX,
        r.targets@ == first_hosts(processes@).map_values(|host: (String, usize)| host.0),
{
    let places = remote_check_hosts(processes);
    proof {
        lemma_remote_hosts(processes@, processes@.len() as int);
    }
    let mut hosts: Vec<String> = Vec::new();
    let mut i: usize = 0;
    assert(machines_at(processes@, places@.take(0)) =~= Seq::<String>::empty());
    while i < places.len()
        invariant
            i <= places@.len(),
            forall|k: int| 0 <= k < places@.len() ==> (#[trigger] places@[k]) < processes@.len(),
            hosts@ == machines_at(processes@, places@.take(i as int)),
        decreases places@.len() - i,
    {
        hosts.push(processes[places[i]].machine.clone());
        proof {
            assert(places@.take(i + 1) =~= places@.take(i as int).push(places@[i as int]));
            assert(machines_at(processes@, places@.take(i + 1)) =~= hosts@);
        }
        i += 1;
    }
    assert(places@.take(i as int) =~= places@);
    let probes = probe_targets(processes);
    let ghost names = first_hosts(processes@).map_values(|host: (String, usize)| host.0);
    let mut targets: Vec<String> = Vec::new();
    let mut k: usize = 0;
    while k < probes.len()
        invariant
            k <= probes@.len() == names.len(),
            forall|j: int| 0 <= j < probes@.len() ==> (#[trigger] probes@[j]).machine == names[j],
            targets@ == names.take(k as int),
        decreases probes@.len() - k,
    {
        targets.push(probes[k].machine.clone());
        proof {
            assert(targets@ =~= names.take(k + 1));
        }
        k += 1;
    }
    assert(names.take(k as int) =~= names);
    PreflightPlan {
        checks: realization == CheckRealization::LocalWorkspace && checks.len() > 0,
        hosts,
        targets,
    }
}

/// Every machine that hosts a process is probed, and each once.
pub proof fn law_every_hosting_machine_is_probed_once(processes: Seq<ProcessPlan>, i: int)
    requires
        0 <= i < processes.len() <= usize::MAX,
    ensures
        crate::dict::in_order(first_hosts(processes)),
        lookup(first_hosts(processes), processes[i].machine@) is Some,
    decreases processes.len(),
{
    let front = processes.drop_last();
    let before = first_hosts(front);
    let last = processes[processes.len() - 1];
    if front.len() > 0 {
        law_every_hosting_machine_is_probed_once(front, 0);
        if i < front.len() {
            law_every_hosting_machine_is_probed_once(front, i);
            assert(front[i] == processes[i]);
        }
    }
    let at = (processes.len() - 1) as usize;
    if lookup(before, last.machine@) is None {
        crate::dict::lemma_with_entry_in_order(before, last.machine, at);
        crate::dict::lemma_with_entry_lookup(before, last.machine, at, processes[i].machine@);
    }
}

// ---------------------------------------------------------------------------
// How failures before a launch are told

/// The outcome of a remote workspace preflight, as the caller is told of it.
pub fn workspace_preflight<T>(outcome: Result<T, String>) -> (r: Result<T, InferlabError>)
    ensures
        match outcome {
            Ok(found) => r matches Ok(kept) && kept == found,
            Err(message) => refuses(r, "remote execution preflight failed: "@ + message@),
        },
{
    match outcome {
        Ok(found) => Ok(found),
        Err(message) => Err(
            InferlabError::InvalidConfig {
                message: cat2("remote execution preflight failed: ", message.as_str()),
            },
        ),
    }
}

/// The outcome of a remote container preflight, as the caller is told of it.
pub fn container_preflight<T>(outcome: Result<T, String>) -> (r: Result<T, InferlabError>)
    ensures
        match outcome {
            Ok(found) => r matches Ok(kept) && kept == found,
            Err(message) => r matches Err(InferlabError::ImageSelection { message: told })
                && told@ == "remote container preflight failed: "@ + message@,
        },
{
    match outcome {
        Ok(found) => Ok(found),
        Err(message) => Err(
            InferlabError::ImageSelection {
                message: cat2("remote container preflight failed: ", message.as_str()),
            },
        ),
    }
}

/// The interface that the machines of a server share, as their probes show it.
pub fn resolve_network(machines: &[String], probes: &[(String, ProbeOutcome)]) -> (r: Result<
    Option<NetworkPlan>,
    InferlabError,
>)
    requires
        probes_follow(texts(machines@), probes@),
    ensures
        if first_places(texts(machines@)).len() <= 1 {
            r matches Ok(None)
        } else {
            match first_some(probes@.len(), probe_faults(probes@)) {
                Some(text) => refuses(r, "network resolution failed: "@ + text),
                None => match shared_interface(shown_machines(probes@)) {
                    None => refuses(
                        r,
                        "network resolution failed: "@
                            + ("no common routable communication interface across machines ["@
                            + joined(probed_ids(probes@), ", "@)
                            + "]; verify that every machine has a common global IPv4 interface and that RDMA links are up"@),
                    ),
                    Some((interface, reason)) => r matches Ok(Some(plan))
                        && plan.selected_interface@ == interface && plan.reason == reason
                        && plan.machines.wf() && machines_by_name(plan.machines.entries@)
                        == machine_table(probed_ids(probes@), shown_machines(probes@)),
                },
            }
        },
{
    match resolve(machines, probes) {
        Ok(plan) => Ok(plan),
        Err(error) => Err(
            InferlabError::InvalidConfig {
                message: cat2("network resolution failed: ", error.message().as_str()),
            },
        ),
    }
}

/// Where a process keeps its files on the machine that it runs on.
pub fn remote_runtime_dir(cwd: &str, record_id: &str, process_id: &str) -> (r: String)
    ensures
        r@ == joined_path(
            joined_path(joined_path(cwd@, "runtime"@), record_id@),
            process_id@,
        ),
{
    let runtime = join_path(cwd, "runtime");
    let record = join_path(runtime.as_str(), record_id);
    join_path(record.as_str(), process_id)
}

/// The devices of a machine are those of the processes on it, and of no others.
pub proof fn law_devices_of_a_machine_are_those_of_its_processes(
    processes: Seq<ProcessPlan>,
    n: int,
    machine: Seq<char>,
    device: u32,
)
    requires
        0 <= n <= processes.len(),
    ensures
        devices_on(processes, n, machine).contains(device) <==> exists|i: int|
            0 <= i < n && (#[trigger] processes[i]).machine@ == machine
                && processes[i].allocation.devices@.contains(device),
    decreases n,
{
    if n > 0 {
        let before = devices_on(processes, n - 1, machine);
        let all = devices_on(processes, n, machine);
        let own = processes[n - 1].allocation.devices@;
        law_devices_of_a_machine_are_those_of_its_processes(processes, n - 1, machine, device);
        if before.contains(device) {
            let k = choose|k: int| 0 <= k < before.len() && before[k] == device;
            assert(all[k] == device);
        }
        if processes[n - 1].machine@ == machine {
            if own.contains(device) {
                let k = choose|k: int| 0 <= k < own.len() && own[k] == device;
                assert(all[before.len() + k] == device);
            }
            if all.contains(device) {
                let k = choose|k: int| 0 <= k < all.len() && all[k] == device;
                if k < before.len() {
                    assert(before[k] == device);
                } else {
                    assert(own[k - before.len()] == device);
                }
            }
        }
    }
}

/// The checks of another machine are run for the first process on it: each place is that
/// of a process on another machine that has none of the same machine before it.
pub proof fn law_other_machine_is_checked_at_its_first_process(
    processes: Seq<ProcessPlan>,
    n: int,
    a: int,
    j: int,
)
    requires
        0 <= n <= processes.len() <= usize::MAX,
        0 <= a < remote_hosts(processes, n).len(),
    ensures
        0 <= remote_hosts(processes, n)[a] < n,
        processes[remote_hosts(processes, n)[a] as int].launch is Ssh,
        0 <= j < remote_hosts(processes, n)[a] && processes[j].launch is Ssh
            ==> processes[j].machine@ != processes[remote_hosts(processes, n)[a] as int].machine@,
    decreases n,
{
    let before = remote_hosts(processes, n - 1);
    if a < before.len() {
        law_other_machine_is_checked_at_its_first_process(processes, n - 1, a, j);
    } else {
        assert(!hosted_before(processes, n - 1));
        if 0 <= j < n - 1 && processes[j].launch is Ssh {
            assert(remote(processes[j]));
        }
    }
}

/// No other machine is left out: the machine of each process on another machine is
/// checked, at this process or at one before it.
pub proof fn law_every_other_machine_is_checked(processes: Seq<ProcessPlan>, n: int, i: int) -> (a: int)
    requires
        0 <= i < n <= processes.len() <= usize::MAX,
        processes[i].launch is Ssh,
    ensures
        0 <= a < remote_hosts(processes, n).len(),
        remote_hosts(processes, n)[a] <= i,
        processes[remote_hosts(processes, n)[a] as int].machine@ == processes[i].machine@,
    decreases n, i,
{
    let before = remote_hosts(processes, n - 1);
    if i < n - 1 {
        law_every_other_machine_is_checked(processes, n - 1, i)
    } else if hosted_before(processes, i) {
        let j = choose|j: int|
            0 <= j < i && remote(#[trigger] processes[j]) && processes[j].machine@
                == processes[i].machine@;
        law_every_other_machine_is_checked(processes, n - 1, j)
    } else {
        before.len() as int
    }
}

/// A machine is probed at the first process on it.
pub proof fn law_machine_is_probed_at_its_first_process(processes: Seq<ProcessPlan>, name: Seq<char>)
    requires
        processes.len() <= usize::MAX,
    ensures
        crate::dict::in_order(first_hosts(processes)),
        lookup(first_hosts(processes), name) matches Some(at) ==> {
            &&& at < processes.len()
            &&& processes[at as int].machine@ == name
            &&& forall|j: int| 0 <= j < at ==> (#[trigger] processes[j]).machine@ != name
        },
        lookup(first_hosts(processes), name) is None ==> forall|j: int|
            0 <= j < processes.len() ==> (#[trigger] processes[j]).machine@ != name,
    decreases processes.len(),
{
    if processes.len() > 0 {
        let fewer = processes.drop_last();
        let last = processes[processes.len() - 1];
        let before = first_hosts(fewer);
        law_machine_is_probed_at_its_first_process(fewer, name);
        law_machine_is_probed_at_its_first_process(fewer, last.machine@);
        assert forall|j: int| 0 <= j < fewer.len() implies (#[trigger] fewer[j]) == processes[j] by {
        }
        if lookup(before, last.machine@) is None {
            let at = (processes.len() - 1) as usize;
            crate::dict::lemma_with_entry_in_order(before, last.machine, at);
            crate::dict::lemma_with_entry_lookup(before, last.machine, at, name);
        }
        if lookup(before, name) is Some {
            let at = lookup(before, name)->0;
            assert(fewer[at as int] == processes[at as int]);
            assert forall|j: int| 0 <= j < at implies (#[trigger] processes[j]).machine@ != name by {
                assert(fewer[j] == processes[j]);
            }
        } else {
            assert forall|j: int| 0 <= j < fewer.len() implies (#[trigger] processes[j]).machine@
                != name by {
                assert(fewer[j] == processes[j]);
            }
        }
    }
}

} // verus!
