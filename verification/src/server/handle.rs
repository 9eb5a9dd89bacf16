//! Handles of launched processes and the state that their machines report.

use crate::process_group::{
    live_members, members_told, result_of, BoundedWait, CommandOutput, LocalProcessGroup,
};
use crate::text::{
    cat2, cat3, cat4, cat6, cat7, decimal, decode_lossy, lossy_text, text_of, to_decimal, trim,
    trimmed,
};
use vstd::prelude::*;
use vstd::string::*;

verus! {

/// A process that runs on this machine, by its process group.
#[derive(Debug)]
pub struct HostProcessHandle {
    pub leader_pid: u32,
    pub process_group: u32,
    pub leader_start_time_ticks: u64,
    /// The container that the process launched, where its command is one of a
    /// container client: what killing the group cannot reach.
    pub container: Option<String>,
}

/// A process that runs on another machine, by its process group there.
#[derive(Debug)]
pub struct SshProcessHandle {
    pub target: String,
    pub leader_pid: u32,
    pub process_group: u32,
    pub leader_start_time_ticks: u64,
    pub stdout: String,
    pub stderr: String,
    /// The container that the process launched, where its command is one of a
    /// container client: what killing the group cannot reach.
    pub container: Option<String>,
}

/// A launched process.
#[derive(Debug)]
pub enum ProcessHandle {
    Local(HostProcessHandle),
    Ssh(SshProcessHandle),
}

/// What a query of a process found.
#[derive(Debug)]
pub struct ProcessStatus {
    pub queried: bool,
    pub alive: bool,
    pub error: Option<String>,
}

/// What a query of a process found, as values.
pub struct StatusView {
    pub queried: bool,
    pub alive: bool,
    pub error: Option<Seq<char>>,
}

impl View for ProcessStatus {
    type V = StatusView;

    open spec fn view(&self) -> StatusView {
        StatusView { queried: self.queried, alive: self.alive, error: text_of(self.error) }
    }
}

// ---------------------------------------------------------------------------
// Identity

/// What is wrong with the numbers that identify a process group.
pub open spec fn identity_fault(leader: u32, group: u32, ticks: u64, kind: Seq<char>) -> Option<
    Seq<char>,
> {
    if leader == 0 || group == 0 || ticks == 0 {
        Some(kind + " process-group handle requires non-zero ids"@)
    } else if leader != group {
        Some(kind + " process-group handle requires leader_pid to equal process_group"@)
    } else {
        None
    }
}

/// Whether a check found what the specification says.
pub open spec fn checked(r: Result<(), String>, fault: Option<Seq<char>>) -> bool {
    match fault {
        Some(text) => r matches Err(found) && found@ == text,
        None => r is Ok,
    }
}

/// Checks the numbers that identify a process group.
pub fn validate_process_identity(
    leader_pid: u32,
    process_group: u32,
    leader_start_time_ticks: u64,
    kind: &str,
) -> (r: Result<(), String>)
    ensures
        checked(r, identity_fault(leader_pid, process_group, leader_start_time_ticks, kind@)),
{
    if leader_pid == 0 || process_group == 0 || leader_start_time_ticks == 0 {
        return Err(cat2(kind, " process-group handle requires non-zero ids"));
    }
    if leader_pid != process_group {
        return Err(
            cat2(kind, " process-group handle requires leader_pid to equal process_group"),
        );
    }
    Ok(())
}

impl HostProcessHandle {
    /// What is wrong with the handle.
    pub open spec fn fault(self) -> Option<Seq<char>> {
        identity_fault(
            self.leader_pid,
            self.process_group,
            self.leader_start_time_ticks,
            "host"@,
        )
    }

    /// The handle of a child that was just started. `start` is the reading of its
    /// start time.
    pub fn new(
        leader_pid: u32,
        start: &Result<Option<u64>, String>,
        container: Option<String>,
    ) -> (r: Result<Self, String>)
        ensures
            if leader_pid == 0 {
                r matches Err(found) && found@
                    == "host process-group handle requires a non-zero leader pid"@
            } else {
                match *start {
                    Err(error) => r matches Err(found) && found@ == error@,
                    Ok(None) => r matches Err(found) && found@ == "host process "@ + decimal(
                        leader_pid as nat,
                    ) + " exited before its identity could be recorded"@,
                    Ok(Some(ticks)) => r == Ok::<HostProcessHandle, String>(
                        HostProcessHandle {
                            leader_pid,
                            process_group: leader_pid,
                            leader_start_time_ticks: ticks,
                            container,
                        },
                    ),
                }
            },
    {
        if leader_pid == 0 {
            return Err("host process-group handle requires a non-zero leader pid".to_owned());
        }
        match start {
            Err(error) => Err(error.clone()),
            Ok(None) => Err(
                cat3(
                    "host process ",
                    to_decimal(leader_pid as u64).as_str(),
                    " exited before its identity could be recorded",
                ),
            ),
            Ok(Some(ticks)) => Ok(
                HostProcessHandle {
                    leader_pid,
                    process_group: leader_pid,
                    leader_start_time_ticks: *ticks,
                    container,
                },
            ),
        }
    }

    /// Checks the handle.
    pub fn validate(&self) -> (r: Result<(), String>)
        ensures
            checked(r, self.fault()),
    {
        validate_process_identity(
            self.leader_pid,
            self.process_group,
            self.leader_start_time_ticks,
            "host",
        )
    }

    /// The process group of the handle.
    pub open spec fn group(self) -> LocalProcessGroup {
        LocalProcessGroup {
            leader_pid: self.leader_pid,
            process_group: self.process_group,
            leader_start_time_ticks: self.leader_start_time_ticks,
        }
    }
}

impl SshProcessHandle {
    /// What is wrong with the handle.
    pub open spec fn fault(self) -> Option<Seq<char>> {
        if self.target@.len() == 0 {
            Some("SSH process handle requires a target"@)
        } else {
            identity_fault(
                self.leader_pid,
                self.process_group,
                self.leader_start_time_ticks,
                "SSH"@,
            )
        }
    }

    /// Checks the handle.
    pub fn validate(&self) -> (r: Result<(), String>)
        ensures
            checked(r, self.fault()),
    {
        if self.target.as_str().is_empty() {
            return Err("SSH process handle requires a target".to_owned());
        }
        validate_process_identity(
            self.leader_pid,
            self.process_group,
            self.leader_start_time_ticks,
            "SSH",
        )
    }
}

// ---------------------------------------------------------------------------
// Bounded commands

/// Why a status command has no output, if it has none.
pub open spec fn status_fault(wait: BoundedWait) -> Option<Seq<char>> {
    match wait {
        BoundedWait::Exited { .. } => None,
        BoundedWait::Expired { kill: Err(error) } => Some(
            "process status cleanup failed: "@ + error@,
        ),
        BoundedWait::Expired { kill: Ok(()) } => Some("process status attempt deadline expired"@),
        BoundedWait::Interrupted { kill: Err(error) } => Some(
            "process status cleanup failed: "@ + error@,
        ),
        BoundedWait::Interrupted { kill: Ok(()) } => Some("process status attempt was interrupted"@),
        BoundedWait::LaunchFailed { error } => Some(
            "failed to launch process status command: "@ + error@,
        ),
        BoundedWait::StdinFailed { error } => Some("process status command failed: "@ + error@),
        BoundedWait::WaitFailed { error } => Some("process status command failed: "@ + error@),
        BoundedWait::WaitCleanupFailed { source, .. } => Some(
            "process status command wait failed: "@ + source@,
        ),
    }
}

/// The output of a status command, or why it has none.
pub fn run_status_command(wait: &BoundedWait) -> (r: Result<&CommandOutput, String>)
    ensures
        match status_fault(*wait) {
            None => r matches Ok(found) && *wait == (BoundedWait::Exited { output: *found }),
            Some(text) => r matches Err(found) && found@ == text,
        },
{
    match wait {
        BoundedWait::Exited { output } => Ok(output),
        BoundedWait::Expired { kill } => match kill {
            Err(error) => Err(cat2("process status cleanup failed: ", error.as_str())),
            Ok(()) => Err("process status attempt deadline expired".to_owned()),
        },
        BoundedWait::Interrupted { kill } => match kill {
            Err(error) => Err(cat2("process status cleanup failed: ", error.as_str())),
            Ok(()) => Err("process status attempt was interrupted".to_owned()),
        },
        BoundedWait::LaunchFailed { error } => Err(
            cat2("failed to launch process status command: ", error.as_str()),
        ),
        BoundedWait::StdinFailed { error } => Err(
            cat2("process status command failed: ", error.as_str()),
        ),
        BoundedWait::WaitFailed { error } => Err(
            cat2("process status command failed: ", error.as_str()),
        ),
        BoundedWait::WaitCleanupFailed { source, .. } => Err(
            cat2("process status command wait failed: ", source.as_str()),
        ),
    }
}

/// Why a cleanup command has no output, if it has none.
pub open spec fn operation_fault(wait: BoundedWait, operation: Seq<char>) -> Option<Seq<char>> {
    match wait {
        BoundedWait::Exited { .. } => None,
        BoundedWait::Expired { kill: Err(error) } => Some(
            operation + " child cleanup failed: "@ + error@,
        ),
        BoundedWait::Expired { kill: Ok(()) } => Some(operation + " deadline expired"@),
        BoundedWait::Interrupted { kill: Err(error) } => Some(
            operation + " child cleanup failed: "@ + error@,
        ),
        BoundedWait::Interrupted { kill: Ok(()) } => Some(operation + " was interrupted"@),
        BoundedWait::LaunchFailed { error } => Some(
            "failed to launch "@ + operation + ": "@ + error@,
        ),
        BoundedWait::StdinFailed { error } => Some(operation + " failed: "@ + error@),
        BoundedWait::WaitFailed { error } => Some(operation + " failed: "@ + error@),
        BoundedWait::WaitCleanupFailed { source, cleanup_error, cleanup_verified } => Some(
            operation + " wait failed: "@ + source@ + "; child cleanup: "@ + match cleanup_error {
                Some(error) => error@,
                None => if cleanup_verified {
                    "verified"@
                } else {
                    "unverified"@
                },
            },
        ),
    }
}

/// The output of a cleanup command, or why it has none.
pub fn run_cleanup_command<'a>(wait: &'a BoundedWait, operation: &str) -> (r: Result<
    &'a CommandOutput,
    String,
>)
    ensures
        match operation_fault(*wait, operation@) {
            None => r matches Ok(found) && *wait == (BoundedWait::Exited { output: *found }),
            Some(text) => r matches Err(found) && found@ == text,
        },
{
    match wait {
        BoundedWait::Exited { output } => Ok(output),
        BoundedWait::Expired { kill } => match kill {
            Err(error) => Err(cat3(operation, " child cleanup failed: ", error.as_str())),
            Ok(()) => Err(cat2(operation, " deadline expired")),
        },
        BoundedWait::Interrupted { kill } => match kill {
            Err(error) => Err(cat3(operation, " child cleanup failed: ", error.as_str())),
            Ok(()) => Err(cat2(operation, " was interrupted")),
        },
        BoundedWait::LaunchFailed { error } => Err(
            cat4("failed to launch ", operation, ": ", error.as_str()),
        ),
        BoundedWait::StdinFailed { error } => Err(cat3(operation, " failed: ", error.as_str())),
        BoundedWait::WaitFailed { error } => Err(cat3(operation, " failed: ", error.as_str())),
        BoundedWait::WaitCleanupFailed { source, cleanup_error, cleanup_verified } => {
            let verification = match cleanup_error {
                Some(error) => error.as_str(),
                None => if *cleanup_verified {
                    "verified"
                } else {
                    "unverified"
                },
            };
            Err(
                crate::text::cat5(
                    operation,
                    " wait failed: ",
                    source.as_str(),
                    "; child cleanup: ",
                    verification,
                ),
            )
        },
    }
}

// ---------------------------------------------------------------------------
// Status of a local process

/// Whether a process group has live members, from the output of a query of the
/// process table.
pub fn process_group_has_live_members_under(process_group: u32, output: &CommandOutput) -> (r: Result<
    bool,
    String,
>)
    ensures
        result_of(r) == members_told(*output, process_group),
{
    if !output.success {
        return Err(
            cat4(
                "process-group query exited with ",
                output.status.as_str(),
                ": ",
                trim(decode_lossy(output.stderr.as_slice()).as_str()),
            ),
        );
    }
    Ok(live_members(decode_lossy(output.stdout.as_slice()).as_str(), process_group))
}

/// A query that told nothing.
pub open spec fn unknown(error: Seq<char>) -> StatusView {
    StatusView { queried: false, alive: false, error: Some(error) }
}

/// A query that told whether the process lives.
pub open spec fn told(alive: bool) -> StatusView {
    StatusView { queried: true, alive, error: None }
}

/// A query that told nothing.
pub fn status_error(error: String) -> (r: ProcessStatus)
    ensures
        r@ == unknown(error@),
{
    ProcessStatus { queried: false, alive: false, error: Some(error) }
}

/// The state of a local process that the readings show.
pub open spec fn local_status(
    handle: HostProcessHandle,
    start: Result<Option<u64>, Seq<char>>,
    members: Result<bool, Seq<char>>,
) -> StatusView {
    match handle.fault() {
        Some(text) => unknown(text),
        None => match start {
            Err(text) => unknown(text),
            Ok(Some(actual)) if actual != handle.leader_start_time_ticks => StatusView {
                queried: true,
                alive: false,
                error: Some(
                    "managed process "@ + decimal(handle.leader_pid as nat)
                        + " exited and its pid was reused: recorded start time "@ + decimal(
                        handle.leader_start_time_ticks as nat,
                    ) + ", observed "@ + decimal(actual as nat),
                ),
            },
            Ok(leader) => match members {
                Err(text) => unknown(text),
                Ok(alive) => if leader is Some || !alive {
                    told(alive)
                } else {
                    unknown(
                        "process-group "@ + decimal(handle.process_group as nat)
                            + " still has members but recorded leader "@ + decimal(
                            handle.leader_pid as nat,
                        ) + " no longer exists; ownership cannot be verified"@,
                    )
                },
            },
        },
    }
}

/// The words for a group whose leader is gone and whose members are not.
pub fn leader_missing(process_group: u32, leader_pid: u32) -> (r: String)
    ensures
        r@ == "process-group "@ + decimal(process_group as nat)
            + " still has members but recorded leader "@ + decimal(leader_pid as nat)
            + " no longer exists; ownership cannot be verified"@,
{
    crate::text::cat5(
        "process-group ",
        to_decimal(process_group as u64).as_str(),
        " still has members but recorded leader ",
        to_decimal(leader_pid as u64).as_str(),
        " no longer exists; ownership cannot be verified",
    )
}

/// The state of a local process. `start` is the reading of its leader's start
/// time, `members` that of the group's live members.
pub fn verified_local_status_under(
    handle: &HostProcessHandle,
    start: &Result<Option<u64>, String>,
    members: &Result<bool, String>,
) -> (r: ProcessStatus)
    ensures
        r@ == local_status(*handle, result_of(*start), result_of(*members)),
{
    match handle.validate() {
        Err(error) => return status_error(error),
        Ok(()) => {},
    }
    let leader = match start {
        Err(error) => return status_error(error.clone()),
        Ok(leader) => *leader,
    };
    if let Some(actual) = leader {
        if actual != handle.leader_start_time_ticks {
            return ProcessStatus {
                queried: true,
                alive: false,
                error: Some(
                    cat6(
                        "managed process ",
                        to_decimal(handle.leader_pid as u64).as_str(),
                        " exited and its pid was reused: recorded start time ",
                        to_decimal(handle.leader_start_time_ticks).as_str(),
                        ", observed ",
                        to_decimal(actual).as_str(),
                    ),
                ),
            };
        }
    }
    match members {
        Err(error) => status_error(error.clone()),
        Ok(alive) => if leader.is_some() || !*alive {
            ProcessStatus { queried: true, alive: *alive, error: None }
        } else {
            status_error(leader_missing(handle.process_group, handle.leader_pid))
        },
    }
}

// ---------------------------------------------------------------------------
// Status of a remote process

/// The test whether a process group has live members.
pub open spec fn group_alive(group: Seq<char>) -> Seq<char> {
    "ps -eo pgid=,stat= | awk -v pgid="@ + group
        + " '$1 == pgid && $2 !~ /^Z/ { found=1 } END { exit !found }'"@
}

/// The test whether a process group has live members.
pub fn remote_group_alive_script(group: &str) -> (r: String)
    ensures
        r@ == group_alive(group@),
{
    cat3(
        "ps -eo pgid=,stat= | awk -v pgid=",
        group,
        " '$1 == pgid && $2 !~ /^Z/ { found=1 } END { exit !found }'",
    )
}

/// The script that reports the state of a remote process by its exit code.
pub open spec fn status_script(handle: SshProcessHandle) -> Seq<char> {
    let alive = group_alive(decimal(handle.process_group as nat));
    "set -eu; pid="@ + decimal(handle.leader_pid as nat) + "; expected="@ + decimal(
        handle.leader_start_time_ticks as nat,
    )
        + "; if [ -r /proc/$pid/stat ]; then actual=$(awk '{print $22}' /proc/$pid/stat); if [ \"$actual\" != \"$expected\" ]; then printf 'stale %s\\n' \"$actual\"; exit 4; fi; elif "@
        + alive + ("; then printf 'unknown leader-missing\\n'; exit 5; else printf 'dead\\n'; exit 3; fi; if "@
        + alive + "; then printf 'alive\\n'; exit 0; fi; printf 'dead\\n'; exit 3"@)
}

/// The script that reports the state of a remote process by its exit code.
pub fn ssh_status_script(handle: &SshProcessHandle) -> (r: String)
    ensures
        r@ == status_script(*handle),
{
    let alive = remote_group_alive_script(to_decimal(handle.process_group as u64).as_str());
    let tail = cat3(
        "; then printf 'unknown leader-missing\\n'; exit 5; else printf 'dead\\n'; exit 3; fi; if ",
        alive.as_str(),
        "; then printf 'alive\\n'; exit 0; fi; printf 'dead\\n'; exit 3",
    );
    cat7(
        "set -eu; pid=",
        to_decimal(handle.leader_pid as u64).as_str(),
        "; expected=",
        to_decimal(handle.leader_start_time_ticks).as_str(),
        "; if [ -r /proc/$pid/stat ]; then actual=$(awk '{print $22}' /proc/$pid/stat); if [ \"$actual\" != \"$expected\" ]; then printf 'stale %s\\n' \"$actual\"; exit 4; fi; elif ",
        alive.as_str(),
        tail.as_str(),
    )
}

/// The state of a remote process that an answer to the status script shows.
pub open spec fn remote_status(handle: SshProcessHandle, answer: Result<CommandOutput, String>) -> StatusView {
    match handle.fault() {
        Some(text) => unknown(text),
        None => match answer {
            Err(error) => unknown(error@),
            Ok(output) => {
                let out = trimmed(lossy_text(output.stdout@));
                if output.success {
                    told(true)
                } else if output.exit_code == Some(3i32) {
                    told(false)
                } else if output.exit_code == Some(4i32) {
                    StatusView {
                        queried: true,
                        alive: false,
                        error: Some(
                            "managed SSH process "@ + decimal(handle.leader_pid as nat)
                                + " exited and its pid was reused: "@ + out,
                        ),
                    }
                } else if output.exit_code == Some(5i32) {
                    unknown(
                        "SSH process-group "@ + decimal(handle.process_group as nat)
                            + " ownership could not be verified: "@ + out,
                    )
                } else {
                    unknown(
                        "SSH status exited with "@ + output.status@ + ": "@ + trimmed(
                            lossy_text(output.stderr@),
                        ),
                    )
                }
            },
        },
    }
}

/// The state of a remote process. `answer` is the answer to the status script.
pub fn verified_ssh_status_under(
    handle: &SshProcessHandle,
    answer: &Result<CommandOutput, String>,
) -> (r: ProcessStatus)
    ensures
        r@ == remote_status(*handle, *answer),
{
    match handle.validate() {
        Err(error) => return status_error(error),
        Ok(()) => {},
    }
    let output = match answer {
        Err(error) => return status_error(error.clone()),
        Ok(output) => output,
    };
    if output.success {
        return ProcessStatus { queried: true, alive: true, error: None };
    }
    let text = decode_lossy(output.stdout.as_slice());
    let out = trim(text.as_str());
    match output.exit_code {
        Some(3) => ProcessStatus { queried: true, alive: false, error: None },
        Some(4) => ProcessStatus {
            queried: true,
            alive: false,
            error: Some(
                cat4(
                    "managed SSH process ",
                    to_decimal(handle.leader_pid as u64).as_str(),
                    " exited and its pid was reused: ",
                    out,
                ),
            ),
        },
        Some(5) => status_error(
            cat4(
                "SSH process-group ",
                to_decimal(handle.process_group as u64).as_str(),
                " ownership could not be verified: ",
                out,
            ),
        ),
        _ => status_error(
            cat4(
                "SSH status exited with ",
                output.status.as_str(),
                ": ",
                trim(decode_lossy(output.stderr.as_slice()).as_str()),
            ),
        ),
    }
}

// ---------------------------------------------------------------------------
// Laws

/// A process is only said to be alive on a reading of its own leader: one whose
/// start time is the recorded one, with live members in its group.
pub proof fn law_alive_means_the_recorded_process(
    handle: HostProcessHandle,
    start: Result<Option<u64>, Seq<char>>,
    members: Result<bool, Seq<char>>,
)
    requires
        local_status(handle, start, members).alive,
    ensures
        start == Ok::<Option<u64>, Seq<char>>(Some(handle.leader_start_time_ticks)),
        members == Ok::<bool, Seq<char>>(true),
        handle.fault() is None,
{
}

/// What could not be told is never taken for alive.
pub proof fn law_untold_is_not_alive(
    handle: HostProcessHandle,
    start: Result<Option<u64>, Seq<char>>,
    members: Result<bool, Seq<char>>,
    remote: SshProcessHandle,
    answer: Result<CommandOutput, String>,
)
    ensures
        local_status(handle, start, members).alive ==> local_status(handle, start, members).queried,
        remote_status(remote, answer).alive ==> remote_status(remote, answer).queried,
{
}

/// A handle names a process group exactly where its numbers are not zero and its leader
/// leads the group; one on another machine must also name that machine.
pub proof fn law_handle_names_a_group(host: HostProcessHandle, remote: SshProcessHandle)
    ensures
        host.fault() is None <==> host.leader_pid != 0 && host.leader_pid == host.process_group
            && host.leader_start_time_ticks != 0,
        remote.fault() is None <==> remote.target@.len() > 0 && remote.leader_pid != 0
            && remote.leader_pid == remote.process_group && remote.leader_start_time_ticks != 0,
{
}

/// A local process is alive exactly where its own leader is there with live members in
/// its group; it is known to be gone where its group has none, or where its number has
/// passed to another process.
pub proof fn law_local_process_is_told_by_its_leader(
    handle: HostProcessHandle,
    start: Result<Option<u64>, Seq<char>>,
    members: Result<bool, Seq<char>>,
)
    requires
        handle.fault() is None,
    ensures
        ({
            let told = local_status(handle, start, members);
            let own = start == Ok::<Option<u64>, Seq<char>>(Some(handle.leader_start_time_ticks));
            let other = start matches Ok(Some(ticks)) && ticks != handle.leader_start_time_ticks;
            &&& told.alive <==> own && members == Ok::<bool, Seq<char>>(true)
            &&& told.queried && !told.alive <==> other || (start is Ok && members == Ok::<
                bool,
                Seq<char>,
            >(false))
            &&& !told.queried ==> told.error is Some
            &&& other ==> told.error is Some
        }),
{
}

/// A process on another machine is alive exactly where its machine says so, and known to
/// be gone exactly where its machine says that it is, or that its number has passed on.
/// Any other answer tells nothing.
pub proof fn law_remote_process_is_told_by_its_machine(
    handle: SshProcessHandle,
    answer: Result<CommandOutput, String>,
)
    requires
        handle.fault() is None,
    ensures
        ({
            let told = remote_status(handle, answer);
            &&& told.alive <==> (answer matches Ok(output) && output.success)
            &&& told.queried && !told.alive <==> (answer matches Ok(output) && !output.success && (
            output.exit_code == Some(3i32) || output.exit_code == Some(4i32)))
            &&& !told.queried ==> told.error is Some
        }),
{
}

/// A command about a process has an output exactly where it exited, whatever it is called.
pub proof fn law_command_has_an_output_where_it_exited(wait: BoundedWait, operation: Seq<char>)
    ensures
        operation_fault(wait, operation) is None <==> wait is Exited,
        status_fault(wait) is None <==> wait is Exited,
{
}

} // verus!
