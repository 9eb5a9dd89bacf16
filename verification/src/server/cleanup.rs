//! Stopping launched processes, and the evidence of how it went.

use crate::process_group::{
    CommandOutput, SignalEvidence, SignalView, TerminationSignal, VerifiedStatus,
};
use crate::server::handle::{
    group_alive, leader_missing, remote_group_alive_script, HostProcessHandle, ProcessHandle,
    SshProcessHandle,
};
use crate::text::{
    cat2, cat3, cat4, cat5, copy_text, decimal, decode_lossy, find_last_marked, join, joined, last_marked,
    lossy_text, parse_i32, parsed_signed, same, split, split_on, text_lines, text_of, texts,
    to_decimal, to_decimal_wide, trim, trimmed,
};
use crate::time_bound::{duration_ms, millis};
use vstd::prelude::*;
use vstd::string::*;

verus! {

/// The time between two looks at a process group, in nanoseconds.
pub const POLL_INTERVAL: u128 = 100_000_000;

/// The time that a group has to end after it was asked to.
pub const TERM_GRACE: u128 = 2_000_000_000;

/// The time that a group has to end after it was killed.
pub const KILL_GRACE: u128 = 10_000_000_000;

/// The time that the query before a cleanup may take.
pub const SERVER_CLEANUP_STATUS_DEADLINE: u128 = 2_000_000_000;

/// The time that a cleanup on another machine may take.
pub const REMOTE_SERVER_CLEANUP_DEADLINE: u128 = 30_000_000_000;

/// The time that a child of a failed launch has to be reaped.
pub const LOCAL_LAUNCH_FAILURE_REAP_GRACE: u128 = 5_000_000_000;

/// How often a script on another machine looks at a group that was asked to end:
/// as long as a local wait lasts.
pub const TERM_POLL_LIMIT: u128 = TERM_GRACE / POLL_INTERVAL;

/// How often a script on another machine looks at a group that was killed: as
/// long as a local wait lasts.
pub const KILL_POLL_LIMIT: u128 = KILL_GRACE / POLL_INTERVAL;

/// What marks the report of a cleanup on another machine.
pub const CLEANUP_MARKER: &'static str = "INFERLAB_CLEANUP\t";

/// Why a process is stopped.
#[derive(Clone, Copy, Debug, PartialEq, Eq, Structural)]
pub enum CleanupTrigger {
    StartupRollback,
    Stop,
    Recovery,
}

/// What came of stopping the client of a command that ran out of time.
#[derive(Debug)]
pub struct CommandCleanupEvidence {
    pub verified: bool,
    pub error: Option<String>,
}

/// What came of removing a container.
#[derive(Debug)]
pub struct ContainerRemovalEvidence {
    pub container: String,
    pub elapsed_ms: u64,
    pub operation_elapsed_ms: u64,
    pub deadline_ms: u64,
    pub client_cleanup: Option<CommandCleanupEvidence>,
    pub confirmed: bool,
    pub already_absent: bool,
    pub error: Option<String>,
}

/// What came of stopping a process.
#[derive(Debug)]
pub struct CleanupEvidence {
    pub trigger: CleanupTrigger,
    pub elapsed_ms: u64,
    pub status_deadline_ms: u64,
    pub term_grace_ms: u64,
    pub kill_grace_ms: u64,
    pub reap_grace_ms: Option<u64>,
    pub remote_deadline_ms: Option<u64>,
    pub verified: bool,
    pub already_exited: bool,
    pub forced: bool,
    pub signals: Vec<SignalEvidence>,
    pub error: Option<String>,
    /// What came of removing the container of the process, where it was tried.
    pub container_removal: Option<ContainerRemovalEvidence>,
}

/// What came of removing a container, as values.
pub struct RemovalView {
    pub container: Seq<char>,
    pub elapsed_ms: u64,
    pub operation_elapsed_ms: u64,
    pub deadline_ms: u64,
    /// Whether the client is gone, and what is known otherwise.
    pub client_cleanup: Option<(bool, Option<Seq<char>>)>,
    pub confirmed: bool,
    pub already_absent: bool,
    pub error: Option<Seq<char>>,
}

impl View for ContainerRemovalEvidence {
    type V = RemovalView;

    open spec fn view(&self) -> RemovalView {
        RemovalView {
            container: self.container@,
            elapsed_ms: self.elapsed_ms,
            operation_elapsed_ms: self.operation_elapsed_ms,
            deadline_ms: self.deadline_ms,
            client_cleanup: client_of(self.client_cleanup),
            confirmed: self.confirmed,
            already_absent: self.already_absent,
            error: text_of(self.error),
        }
    }
}

/// What is known of a client, as values.
pub open spec fn client_of(client: Option<CommandCleanupEvidence>) -> Option<
    (bool, Option<Seq<char>>),
> {
    match client {
        Some(found) => Some((found.verified, text_of(found.error))),
        None => None,
    }
}

/// What came of removing a container, where it was tried.
pub open spec fn removal_of(removal: Option<ContainerRemovalEvidence>) -> Option<RemovalView> {
    match removal {
        Some(found) => Some(found@),
        None => None,
    }
}

/// What came of sending signals.
pub open spec fn signals_of(signals: Seq<SignalEvidence>) -> Seq<SignalView> {
    Seq::new(signals.len(), |i: int| signals[i]@)
}

/// What came of stopping a process, as values.
#[verifier::ext_equal]
pub struct CleanupView {
    pub trigger: CleanupTrigger,
    pub elapsed_ms: u64,
    pub status_deadline_ms: u64,
    pub term_grace_ms: u64,
    pub kill_grace_ms: u64,
    pub reap_grace_ms: Option<u64>,
    pub remote_deadline_ms: Option<u64>,
    pub verified: bool,
    pub already_exited: bool,
    pub forced: bool,
    pub signals: Seq<SignalView>,
    pub error: Option<Seq<char>>,
    pub container_removal: Option<RemovalView>,
}

impl View for CleanupEvidence {
    type V = CleanupView;

    open spec fn view(&self) -> CleanupView {
        CleanupView {
            trigger: self.trigger,
            elapsed_ms: self.elapsed_ms,
            status_deadline_ms: self.status_deadline_ms,
            term_grace_ms: self.term_grace_ms,
            kill_grace_ms: self.kill_grace_ms,
            reap_grace_ms: self.reap_grace_ms,
            remote_deadline_ms: self.remote_deadline_ms,
            verified: self.verified,
            already_exited: self.already_exited,
            forced: self.forced,
            signals: signals_of(self.signals@),
            error: text_of(self.error),
            container_removal: removal_of(self.container_removal),
        }
    }
}

impl Clone for CommandCleanupEvidence {
    fn clone(&self) -> (r: Self)
        ensures
            r == *self,
    {
        CommandCleanupEvidence { verified: self.verified, error: copy_text(&self.error) }
    }
}

impl Clone for ContainerRemovalEvidence {
    fn clone(&self) -> (r: Self)
        ensures
            r == *self,
    {
        ContainerRemovalEvidence {
            container: self.container.clone(),
            elapsed_ms: self.elapsed_ms,
            operation_elapsed_ms: self.operation_elapsed_ms,
            deadline_ms: self.deadline_ms,
            client_cleanup: match &self.client_cleanup {
                Some(client) => Some(client.clone()),
                None => None,
            },
            confirmed: self.confirmed,
            already_absent: self.already_absent,
            error: copy_text(&self.error),
        }
    }
}

// ---------------------------------------------------------------------------
// Outcomes

/// A cleanup that ended in a known way, without a container.
pub open spec fn cleanup_outcome(
    trigger: CleanupTrigger,
    verified: bool,
    already_exited: bool,
    forced: bool,
    signals: Seq<SignalView>,
    error: Option<Seq<char>>,
) -> CleanupView {
    CleanupView {
        trigger,
        elapsed_ms: 0,
        status_deadline_ms: millis(SERVER_CLEANUP_STATUS_DEADLINE),
        term_grace_ms: millis(TERM_GRACE),
        kill_grace_ms: millis(KILL_GRACE),
        reap_grace_ms: None,
        remote_deadline_ms: None,
        verified,
        already_exited,
        forced,
        signals,
        error,
        container_removal: None,
    }
}

/// A cleanup that could not be done.
pub open spec fn unavailable_cleanup(trigger: CleanupTrigger, message: Seq<char>) -> CleanupView {
    cleanup_outcome(trigger, false, false, false, Seq::empty(), Some(message))
}

/// A cleanup after which the process is known to be gone.
pub open spec fn complete_cleanup(
    trigger: CleanupTrigger,
    already_exited: bool,
    forced: bool,
    signals: Seq<SignalView>,
) -> CleanupView {
    cleanup_outcome(trigger, true, already_exited, forced, signals, None)
}

/// A cleanup after which the process may still be there.
pub open spec fn failed_cleanup(
    trigger: CleanupTrigger,
    forced: bool,
    signals: Seq<SignalView>,
    error: Seq<char>,
) -> CleanupView {
    cleanup_outcome(trigger, false, false, forced, signals, Some(error))
}

fn outcome(
    trigger: CleanupTrigger,
    verified: bool,
    already_exited: bool,
    forced: bool,
    signals: Vec<SignalEvidence>,
    error: Option<String>,
) -> (r: CleanupEvidence)
    ensures
        r@ == cleanup_outcome(
            trigger,
            verified,
            already_exited,
            forced,
            signals_of(signals@),
            text_of(error),
        ),
{
    CleanupEvidence {
        trigger,
        elapsed_ms: 0,
        status_deadline_ms: duration_ms(SERVER_CLEANUP_STATUS_DEADLINE),
        term_grace_ms: duration_ms(TERM_GRACE),
        kill_grace_ms: duration_ms(KILL_GRACE),
        reap_grace_ms: None,
        remote_deadline_ms: None,
        verified,
        already_exited,
        forced,
        signals,
        error,
        container_removal: None,
    }
}

/// A cleanup after which the process is known to be gone.
pub fn completed_cleanup(
    trigger: CleanupTrigger,
    already_exited: bool,
    forced: bool,
    signals: Vec<SignalEvidence>,
) -> (r: CleanupEvidence)
    ensures
        r@ == complete_cleanup(trigger, already_exited, forced, signals_of(signals@)),
{
    outcome(trigger, true, already_exited, forced, signals, None)
}

/// A cleanup after which the process may still be there.
pub fn cleanup_error(
    trigger: CleanupTrigger,
    forced: bool,
    signals: Vec<SignalEvidence>,
    error: String,
) -> (r: CleanupEvidence)
    ensures
        r@ == failed_cleanup(trigger, forced, signals_of(signals@), error@),
{
    outcome(trigger, false, false, forced, signals, Some(error))
}

impl CleanupEvidence {
    /// A cleanup that could not be done.
    pub fn unavailable(trigger: CleanupTrigger, message: String) -> (r: Self)
        ensures
            r@ == unavailable_cleanup(trigger, message@),
    {
        let r = outcome(trigger, false, false, false, Vec::new(), Some(message));
        assert(r@ =~= unavailable_cleanup(trigger, message@));
        r
    }

    /// The cleanup of a launch that failed and whose container was removed, or was
    /// tried to be. The caller says whether all of it is known to be gone.
    pub fn from_launch_removal(
        trigger: CleanupTrigger,
        verified: bool,
        removal: ContainerRemovalEvidence,
        error: Option<String>,
    ) -> (r: Self)
        ensures
            r@ == (CleanupView {
                elapsed_ms: removal.elapsed_ms,
                container_removal: Some(removal@),
                ..cleanup_outcome(trigger, verified, false, false, Seq::empty(), text_of(error))
            }),
    {
        let mut r = outcome(trigger, verified, false, false, Vec::new(), error);
        r.elapsed_ms = removal.elapsed_ms;
        r.container_removal = Some(removal);
        assert(r@ =~= (CleanupView {
            elapsed_ms: removal.elapsed_ms,
            container_removal: Some(removal@),
            ..cleanup_outcome(trigger, verified, false, false, Seq::empty(), text_of(error))
        }));
        r
    }
}

// ---------------------------------------------------------------------------
// Local processes

/// What came of a step of stopping a local process.
#[derive(Debug)]
pub enum LocalStopEvent {
    /// The state of the group, or why it is not known.
    Checked { status: Result<VerifiedStatus, String> },
    /// The group was asked to end; whether it stopped in time.
    Asked { term: SignalEvidence, stopped: Result<bool, String> },
    /// The group was killed; whether it stopped in time.
    Killed { kill: SignalEvidence, stopped: Result<bool, String> },
}

/// What to do next about a local process that is to stop.
#[derive(Debug)]
pub enum LocalStopAction {
    /// Ask the group to end, and give it [`TERM_GRACE`].
    Ask,
    /// Kill the group, which was asked to end, and give it [`KILL_GRACE`].
    Kill { term: SignalEvidence },
    /// The cleanup is over.
    Done { evidence: CleanupEvidence },
}

/// Whether an event can come of the last action; at first the group is looked at.
pub open spec fn local_stop_expects(last: Option<LocalStopAction>, event: LocalStopEvent) -> bool {
    match last {
        None => event is Checked,
        Some(LocalStopAction::Ask) => event is Asked,
        Some(LocalStopAction::Kill { .. }) => event is Killed,
        Some(LocalStopAction::Done { .. }) => false,
    }
}

/// A cleanup that took some time.
pub open spec fn timed(cleanup: CleanupView, elapsed_ms: u64) -> CleanupView {
    CleanupView { elapsed_ms, ..cleanup }
}

/// Whether an action is the one that an event calls for.
pub open spec fn local_stop_is(
    action: LocalStopAction,
    handle: HostProcessHandle,
    trigger: CleanupTrigger,
    last: Option<LocalStopAction>,
    event: LocalStopEvent,
    elapsed_ms: u64,
) -> bool {
    match handle.fault() {
        Some(text) => local_done(action, timed(unavailable_cleanup(trigger, text), elapsed_ms)),
        None => match event {
            LocalStopEvent::Checked { status } => match status {
                Ok(VerifiedStatus::Alive) => action is Ask,
                Ok(VerifiedStatus::LeaderMissingWithMembers) => local_done(
                    action,
                    timed(
                        unavailable_cleanup(
                            trigger,
                            "process-group "@ + decimal(handle.process_group as nat)
                                + " still has members but recorded leader "@ + decimal(
                                handle.leader_pid as nat,
                            ) + " no longer exists; ownership cannot be verified"@,
                        ),
                        elapsed_ms,
                    ),
                ),
                Ok(_) => local_done(
                    action,
                    timed(complete_cleanup(trigger, true, false, Seq::empty()), elapsed_ms),
                ),
                Err(error) => local_done(
                    action,
                    timed(unavailable_cleanup(trigger, error@), elapsed_ms),
                ),
            },
            LocalStopEvent::Asked { term, stopped } => match stopped {
                Ok(true) => local_done(
                    action,
                    timed(complete_cleanup(trigger, false, false, seq![term@]), elapsed_ms),
                ),
                Ok(false) => action == (LocalStopAction::Kill { term }),
                Err(error) => local_done(
                    action,
                    timed(failed_cleanup(trigger, false, seq![term@], error@), elapsed_ms),
                ),
            },
            LocalStopEvent::Killed { kill, stopped } => {
                let signals = seq![last->0->term@, kill@];
                match stopped {
                    Ok(true) => local_done(
                        action,
                        timed(complete_cleanup(trigger, false, true, signals), elapsed_ms),
                    ),
                    Ok(false) => local_done(
                        action,
                        timed(
                            failed_cleanup(
                                trigger,
                                true,
                                signals,
                                "server process group "@ + decimal(handle.process_group as nat)
                                    + " did not exit after SIGKILL"@,
                            ),
                            elapsed_ms,
                        ),
                    ),
                    Err(error) => local_done(
                        action,
                        timed(failed_cleanup(trigger, true, signals, error@), elapsed_ms),
                    ),
                }
            },
        },
    }
}

/// Whether an action ends the cleanup with the evidence.
pub open spec fn local_done(action: LocalStopAction, cleanup: CleanupView) -> bool {
    action matches LocalStopAction::Done { evidence } && evidence@ == cleanup
}

fn done(evidence: CleanupEvidence, elapsed_ms: u64) -> (r: LocalStopAction)
    ensures
        local_done(r, timed(evidence@, elapsed_ms)),
{
    let mut evidence = evidence;
    evidence.elapsed_ms = elapsed_ms;
    LocalStopAction::Done { evidence }
}

/// One step of stopping a local process: first its state is looked at, then it is
/// asked to end, then it is killed. `last` is the action that the event came of.
pub fn terminate_local(
    handle: &HostProcessHandle,
    trigger: CleanupTrigger,
    last: Option<LocalStopAction>,
    event: LocalStopEvent,
    elapsed_ms: u64,
) -> (r: LocalStopAction)
    requires
        local_stop_expects(last, event),
    ensures
        local_stop_is(r, *handle, trigger, last, event, elapsed_ms),
{
    match handle.validate() {
        Err(error) => {
            return done(CleanupEvidence::unavailable(trigger, error), elapsed_ms);
        },
        Ok(()) => {},
    }
    match event {
        LocalStopEvent::Checked { status } => match status {
            Ok(VerifiedStatus::Alive) => LocalStopAction::Ask,
            Ok(VerifiedStatus::LeaderMissingWithMembers) => done(
                CleanupEvidence::unavailable(
                    trigger,
                    leader_missing(handle.process_group, handle.leader_pid),
                ),
                elapsed_ms,
            ),
            Ok(_) => {
                let signals: Vec<SignalEvidence> = Vec::new();
                assert(signals_of(signals@) =~= Seq::empty());
                done(completed_cleanup(trigger, true, false, signals), elapsed_ms)
            },
            Err(error) => done(CleanupEvidence::unavailable(trigger, error), elapsed_ms),
        },
        LocalStopEvent::Asked { term, stopped } => match stopped {
            Ok(true) => {
                let signals = vec![term];
                assert(signals_of(signals@) =~= seq![term@]);
                done(completed_cleanup(trigger, false, false, signals), elapsed_ms)
            },
            Ok(false) => LocalStopAction::Kill { term },
            Err(error) => {
                let signals = vec![term];
                assert(signals_of(signals@) =~= seq![term@]);
                done(cleanup_error(trigger, false, signals, error), elapsed_ms)
            },
        },
        LocalStopEvent::Killed { kill, stopped } => {
            let mut signals: Vec<SignalEvidence> = Vec::new();
            if let Some(LocalStopAction::Kill { term }) = last {
                signals.push(term);
            }
            signals.push(kill);
            assert(signals_of(signals@) =~= seq![last->0->term@, kill@]);
            match stopped {
                Ok(true) => done(completed_cleanup(trigger, false, true, signals), elapsed_ms),
                Ok(false) => done(
                    cleanup_error(
                        trigger,
                        true,
                        signals,
                        cat3(
                            "server process group ",
                            to_decimal(handle.process_group as u64).as_str(),
                            " did not exit after SIGKILL",
                        ),
                    ),
                    elapsed_ms,
                ),
                Err(error) => done(cleanup_error(trigger, true, signals, error), elapsed_ms),
            }
        },
    }
}

// ---------------------------------------------------------------------------
// Remote processes

/// How a cleanup on another machine went.
#[derive(Clone, Copy, Debug, PartialEq, Eq, Structural)]
pub enum RemoteCleanupState {
    Cleanup,
    Already,
    Stale,
    Unknown,
}

/// The report of a cleanup on another machine.
#[derive(Debug)]
pub struct RemoteCleanupOutput {
    pub state: RemoteCleanupState,
    pub term_code: Option<i32>,
    pub forced: bool,
    pub kill_code: Option<i32>,
    pub alive: bool,
    pub detail: String,
}

/// The report of a cleanup on another machine, as values.
pub struct RemoteCleanupView {
    pub state: RemoteCleanupState,
    pub term_code: Option<i32>,
    pub forced: bool,
    pub kill_code: Option<i32>,
    pub alive: bool,
    pub detail: Seq<char>,
}

impl View for RemoteCleanupOutput {
    type V = RemoteCleanupView;

    open spec fn view(&self) -> RemoteCleanupView {
        RemoteCleanupView {
            state: self.state,
            term_code: self.term_code,
            forced: self.forced,
            kill_code: self.kill_code,
            alive: self.alive,
            detail: self.detail@,
        }
    }
}

/// What a word says of a cleanup.
pub open spec fn state_named(word: Seq<char>) -> Option<RemoteCleanupState> {
    if word == "cleanup"@ {
        Some(RemoteCleanupState::Cleanup)
    } else if word == "already"@ {
        Some(RemoteCleanupState::Already)
    } else if word == "stale"@ {
        Some(RemoteCleanupState::Stale)
    } else if word == "unknown"@ {
        Some(RemoteCleanupState::Unknown)
    } else {
        None
    }
}

/// The exit code that a field gives: none for a dash, and no reading for what is
/// neither a dash nor a number.
pub open spec fn code_field(field: Seq<char>) -> Option<Option<i32>> {
    if field == "-"@ {
        Some(None)
    } else {
        match parsed_signed(field) {
            Some(code) => Some(Some(code as i32)),
            None => None,
        }
    }
}

/// The report in the fields of a marked line.
pub open spec fn cleanup_fields(fields: Seq<Seq<char>>) -> Option<RemoteCleanupView> {
    if fields.len() < 6 {
        None
    } else {
        match (state_named(fields[0]), code_field(fields[1]), code_field(fields[3])) {
            (Some(state), Some(term_code), Some(kill_code)) => Some(
                RemoteCleanupView {
                    state,
                    term_code,
                    forced: fields[2] == "1"@,
                    kill_code,
                    alive: fields[4] == "1"@,
                    detail: fields[5],
                },
            ),
            _ => None,
        }
    }
}

/// The report of a cleanup: the last marked line counts.
pub open spec fn cleanup_report(output: Seq<char>) -> Option<RemoteCleanupView> {
    match last_marked(text_lines(output), CLEANUP_MARKER@) {
        None => None,
        Some(payload) => cleanup_fields(split_on(payload, '\t')),
    }
}

fn read_code(field: &str) -> (r: Option<Option<i32>>)
    ensures
        r == code_field(field@),
{
    if same(field, "-") {
        return Some(None);
    }
    match parse_i32(field) {
        Some(code) => Some(Some(code)),
        None => None,
    }
}

/// What a report holds, where there is one.
pub open spec fn report_of(report: Option<RemoteCleanupOutput>) -> Option<RemoteCleanupView> {
    match report {
        Some(found) => Some(found@),
        None => None,
    }
}

/// Reads the report of a cleanup: the last marked line counts.
pub fn parse_cleanup_output(output: &str) -> (r: Option<RemoteCleanupOutput>)
    ensures
        report_of(r) == cleanup_report(output@),
{
    let payload = match find_last_marked(output, CLEANUP_MARKER) {
        Some(payload) => payload,
        None => return None,
    };
    let fields = split(payload.as_str(), '\t');
    let ghost all = split_on(payload@, '\t');
    assert(texts(fields@).len() == fields@.len());
    if fields.len() < 6 {
        return None;
    }
    assert(forall|i: int| 0 <= i < 6 ==> all[i] == (#[trigger] fields@[i])@);
    let state = if same(fields[0].as_str(), "cleanup") {
        RemoteCleanupState::Cleanup
    } else if same(fields[0].as_str(), "already") {
        RemoteCleanupState::Already
    } else if same(fields[0].as_str(), "stale") {
        RemoteCleanupState::Stale
    } else if same(fields[0].as_str(), "unknown") {
        RemoteCleanupState::Unknown
    } else {
        return None;
    };
    let term_code: Option<i32> = match read_code(fields[1].as_str()) {
        Some(code) => code,
        None => return None,
    };
    let kill_code: Option<i32> = match read_code(fields[3].as_str()) {
        Some(code) => code,
        None => return None,
    };
    Some(
        RemoteCleanupOutput {
            state,
            term_code,
            forced: same(fields[2].as_str(), "1"),
            kill_code,
            alive: same(fields[4].as_str(), "1"),
            detail: fields[5].clone(),
        },
    )
}

/// The parts of the script that stops a process on another machine.
pub open spec fn cleanup_script(handle: SshProcessHandle) -> Seq<Seq<char>> {
    let alive = group_alive("$pgid"@);
    seq![
        "set +e; pgid="@,
        decimal(handle.process_group as nat),
        "; pid="@,
        decimal(handle.leader_pid as nat),
        "; expected="@,
        decimal(handle.leader_start_time_ticks as nat),
        "; if [ -r /proc/$pid/stat ]; then actual=$(awk '{print $22}' /proc/$pid/stat); if [ $? -ne 0 ]; then printf 'INFERLAB_CLEANUP\\tunknown\\t-\\t0\\t-\\t1\\tstat-unreadable\\n'; exit 0; fi; if [ \"$actual\" != \"$expected\" ]; then printf 'INFERLAB_CLEANUP\\tstale\\t-\\t0\\t-\\t0\\t%s\\n' \"$actual\"; exit 0; fi; elif "@,
        alive,
        "; then printf 'INFERLAB_CLEANUP\\tunknown\\t-\\t0\\t-\\t1\\tleader-missing\\n'; exit 0; else printf 'INFERLAB_CLEANUP\\talready\\t-\\t0\\t-\\t0\\t-\\n'; exit 0; fi; if ! "@,
        alive,
        "; then printf 'INFERLAB_CLEANUP\\talready\\t-\\t0\\t-\\t0\\t-\\n'; exit 0; fi; kill -TERM -- -$pgid; term_code=$?; i=0; while "@,
        alive,
        " && [ $i -lt "@,
        decimal(TERM_POLL_LIMIT as nat),
        " ]; do sleep 0.1; i=$((i+1)); done; forced=0; kill_code=-; if "@,
        alive,
        "; then forced=1; kill -KILL -- -$pgid; kill_code=$?; i=0; while "@,
        alive,
        " && [ $i -lt "@,
        decimal(KILL_POLL_LIMIT as nat),
        " ]; do sleep 0.1; i=$((i+1)); done; fi; alive=0; if "@,
        alive,
        "; then alive=1; fi; printf 'INFERLAB_CLEANUP\\tcleanup\\t%s\\t%s\\t%s\\t%s\\t-\\n' \"$term_code\" \"$forced\" \"$kill_code\" \"$alive\""@,
    ]
}

/// The script that stops a process on another machine and reports how it went.
/// Its polls wait out the same times as the local ones.
pub fn ssh_cleanup_script(handle: &SshProcessHandle) -> (r: String)
    ensures
        r@ == joined(cleanup_script(*handle), ""@),
{
    let alive = remote_group_alive_script("$pgid");
    let parts: Vec<String> = vec![
        "set +e; pgid=".to_owned(),
        to_decimal(handle.process_group as u64),
        "; pid=".to_owned(),
        to_decimal(handle.leader_pid as u64),
        "; expected=".to_owned(),
        to_decimal(handle.leader_start_time_ticks),
        "; if [ -r /proc/$pid/stat ]; then actual=$(awk '{print $22}' /proc/$pid/stat); if [ $? -ne 0 ]; then printf 'INFERLAB_CLEANUP\\tunknown\\t-\\t0\\t-\\t1\\tstat-unreadable\\n'; exit 0; fi; if [ \"$actual\" != \"$expected\" ]; then printf 'INFERLAB_CLEANUP\\tstale\\t-\\t0\\t-\\t0\\t%s\\n' \"$actual\"; exit 0; fi; elif ".to_owned(),
        alive.clone(),
        "; then printf 'INFERLAB_CLEANUP\\tunknown\\t-\\t0\\t-\\t1\\tleader-missing\\n'; exit 0; else printf 'INFERLAB_CLEANUP\\talready\\t-\\t0\\t-\\t0\\t-\\n'; exit 0; fi; if ! ".to_owned(),
        alive.clone(),
        "; then printf 'INFERLAB_CLEANUP\\talready\\t-\\t0\\t-\\t0\\t-\\n'; exit 0; fi; kill -TERM -- -$pgid; term_code=$?; i=0; while ".to_owned(),
        alive.clone(),
        " && [ $i -lt ".to_owned(),
        to_decimal_wide(TERM_POLL_LIMIT),
        " ]; do sleep 0.1; i=$((i+1)); done; forced=0; kill_code=-; if ".to_owned(),
        alive.clone(),
        "; then forced=1; kill -KILL -- -$pgid; kill_code=$?; i=0; while ".to_owned(),
        alive.clone(),
        " && [ $i -lt ".to_owned(),
        to_decimal_wide(KILL_POLL_LIMIT),
        " ]; do sleep 0.1; i=$((i+1)); done; fi; alive=0; if ".to_owned(),
        alive.clone(),
        "; then alive=1; fi; printf 'INFERLAB_CLEANUP\\tcleanup\\t%s\\t%s\\t%s\\t%s\\t-\\n' \"$term_code\" \"$forced\" \"$kill_code\" \"$alive\"".to_owned(),
    ];
    assert(texts(parts@) =~= cleanup_script(*handle));
    join(parts.as_slice(), "")
}

/// The evidence of a signal that was sent on another machine.
pub open spec fn remote_signal(
    signal: TerminationSignal,
    group: u32,
    code: i32,
    stderr: Seq<char>,
) -> SignalView {
    SignalView {
        signal,
        process_group: group,
        exit_code: Some(code),
        stderr: if stderr.len() == 0 {
            None
        } else {
            Some(stderr)
        },
        error: None,
    }
}

/// The evidence of a signal that was sent on another machine.
pub fn remote_signal_evidence(
    signal: TerminationSignal,
    process_group: u32,
    exit_code: i32,
    stderr: &str,
) -> (r: SignalEvidence)
    ensures
        r@ == remote_signal(signal, process_group, exit_code, stderr@),
{
    SignalEvidence {
        signal,
        process_group,
        exit_code: Some(exit_code),
        stderr: if stderr.is_empty() {
            None
        } else {
            Some(stderr.to_owned())
        },
        error: None,
    }
}

/// The cleanup that a report on another machine shows.
pub open spec fn reported_cleanup(
    handle: SshProcessHandle,
    trigger: CleanupTrigger,
    report: Option<RemoteCleanupView>,
    stderr: Seq<char>,
) -> CleanupView {
    match report {
        None => failed_cleanup(
            trigger,
            false,
            Seq::empty(),
            "SSH cleanup returned no cleanup result"@,
        ),
        Some(result) => match result.state {
            RemoteCleanupState::Already => complete_cleanup(trigger, true, false, Seq::empty()),
            RemoteCleanupState::Stale => unavailable_cleanup(
                trigger,
                "managed SSH process "@ + decimal(handle.leader_pid as nat)
                    + " exited and its pid was reused: observed start time "@ + result.detail,
            ),
            RemoteCleanupState::Unknown => unavailable_cleanup(
                trigger,
                "SSH process-group "@ + decimal(handle.process_group as nat)
                    + " ownership could not be verified: "@ + result.detail,
            ),
            RemoteCleanupState::Cleanup => match result.term_code {
                None => failed_cleanup(
                    trigger,
                    false,
                    Seq::empty(),
                    "SSH cleanup returned no SIGTERM status"@,
                ),
                Some(term) => {
                    let asked = remote_signal(
                        TerminationSignal::Term,
                        handle.process_group,
                        term,
                        stderr,
                    );
                    let signals = match result.kill_code {
                        Some(kill) => seq![
                            asked,
                            remote_signal(
                                TerminationSignal::Kill,
                                handle.process_group,
                                kill,
                                stderr,
                            ),
                        ],
                        None => seq![asked],
                    };
                    if result.alive {
                        failed_cleanup(
                            trigger,
                            result.forced,
                            signals,
                            "SSH process group "@ + decimal(handle.process_group as nat)
                                + " did not exit after cleanup"@,
                        )
                    } else {
                        complete_cleanup(trigger, false, result.forced, signals)
                    }
                },
            },
        },
    }
}

/// The cleanup that an answer from another machine shows.
pub open spec fn remote_cleanup(
    handle: SshProcessHandle,
    trigger: CleanupTrigger,
    answer: Result<CommandOutput, String>,
) -> CleanupView {
    match answer {
        Err(error) => failed_cleanup(trigger, false, Seq::empty(), error@),
        Ok(output) => if output.success {
            reported_cleanup(
                handle,
                trigger,
                cleanup_report(lossy_text(output.stdout@)),
                trimmed(lossy_text(output.stderr@)),
            )
        } else {
            failed_cleanup(
                trigger,
                false,
                Seq::empty(),
                "SSH cleanup exited with "@ + output.status@ + ": "@ + trimmed(
                    lossy_text(output.stderr@),
                ),
            )
        },
    }
}

fn failed(trigger: CleanupTrigger, error: String) -> (r: CleanupEvidence)
    ensures
        r@ == failed_cleanup(trigger, false, Seq::empty(), error@),
{
    let signals: Vec<SignalEvidence> = Vec::new();
    assert(signals_of(signals@) =~= Seq::empty());
    cleanup_error(trigger, false, signals, error)
}

/// The cleanup of a process on another machine, from the answer to its cleanup
/// script.
pub fn terminate_ssh_under(
    handle: &SshProcessHandle,
    trigger: CleanupTrigger,
    answer: &Result<CommandOutput, String>,
) -> (r: CleanupEvidence)
    ensures
        r@ == remote_cleanup(*handle, trigger, *answer),
{
    let output = match answer {
        Err(error) => return failed(trigger, error.clone()),
        Ok(output) => output,
    };
    let errors = decode_lossy(output.stderr.as_slice());
    let stderr = trim(errors.as_str());
    if !output.success {
        return failed(
            trigger,
            cat4("SSH cleanup exited with ", output.status.as_str(), ": ", stderr),
        );
    }
    let stdout = decode_lossy(output.stdout.as_slice());
    let result = match parse_cleanup_output(stdout.as_str()) {
        Some(result) => result,
        None => return failed(trigger, "SSH cleanup returned no cleanup result".to_owned()),
    };
    match result.state {
        RemoteCleanupState::Already => {
            let signals: Vec<SignalEvidence> = Vec::new();
            assert(signals_of(signals@) =~= Seq::empty());
            return completed_cleanup(trigger, true, false, signals);
        },
        RemoteCleanupState::Stale => {
            return CleanupEvidence::unavailable(
                trigger,
                cat4(
                    "managed SSH process ",
                    to_decimal(handle.leader_pid as u64).as_str(),
                    " exited and its pid was reused: observed start time ",
                    result.detail.as_str(),
                ),
            );
        },
        RemoteCleanupState::Unknown => {
            return CleanupEvidence::unavailable(
                trigger,
                cat4(
                    "SSH process-group ",
                    to_decimal(handle.process_group as u64).as_str(),
                    " ownership could not be verified: ",
                    result.detail.as_str(),
                ),
            );
        },
        RemoteCleanupState::Cleanup => {},
    }
    let term_code: i32 = match result.term_code {
        Some(code) => code,
        None => return failed(trigger, "SSH cleanup returned no SIGTERM status".to_owned()),
    };
    let asked = remote_signal_evidence(
        TerminationSignal::Term,
        handle.process_group,
        term_code,
        stderr,
    );
    let signals = match result.kill_code {
        Some(kill_code) => {
            let kill = remote_signal_evidence(
                TerminationSignal::Kill,
                handle.process_group,
                kill_code,
                stderr,
            );
            let signals = vec![asked, kill];
            assert(signals_of(signals@) =~= seq![asked@, kill@]);
            signals
        },
        None => {
            let signals = vec![asked];
            assert(signals_of(signals@) =~= seq![asked@]);
            signals
        },
    };
    if result.alive {
        cleanup_error(
            trigger,
            result.forced,
            signals,
            cat3(
                "SSH process group ",
                to_decimal(handle.process_group as u64).as_str(),
                " did not exit after cleanup",
            ),
        )
    } else {
        completed_cleanup(trigger, false, result.forced, signals)
    }
}

/// The cleanup of a process on another machine, with the time that it took.
pub fn terminate_ssh(
    handle: &SshProcessHandle,
    trigger: CleanupTrigger,
    answer: &Result<CommandOutput, String>,
    elapsed_ms: u64,
) -> (r: CleanupEvidence)
    ensures
        r@ == (CleanupView {
            elapsed_ms,
            remote_deadline_ms: Some(millis(REMOTE_SERVER_CLEANUP_DEADLINE)),
            ..remote_cleanup(*handle, trigger, *answer)
        }),
{
    let mut evidence = terminate_ssh_under(handle, trigger, answer);
    evidence.elapsed_ms = elapsed_ms;
    evidence.remote_deadline_ms = Some(duration_ms(REMOTE_SERVER_CLEANUP_DEADLINE));
    evidence
}

// ---------------------------------------------------------------------------
// Containers

/// Why the removal of a container is not confirmed.
#[derive(Debug)]
pub enum RemovalFailure {
    Exit { status: String, stderr: String },
    Deadline { operation_elapsed_ms: u64, client_cleanup: Option<CommandCleanupEvidence> },
    Launch { error: String },
    Wait { error: String },
    WaitCleanup {
        source: String,
        operation_elapsed_ms: u64,
        client_cleanup: CommandCleanupEvidence,
    },
    Ssh { error: String },
}

/// How the removal of a container went.
#[derive(Debug)]
pub enum Removal {
    Confirmed { already_absent: bool },
    Unconfirmed { failure: RemovalFailure },
}

/// Why a removal is not confirmed, in words.
pub open spec fn removal_error(container: Seq<char>, deadline: u128, failure: RemovalFailure) -> Seq<
    char,
> {
    match failure {
        RemovalFailure::Exit { status, stderr } => "docker rm -f exited with "@ + status@ + ": "@
            + trimmed(stderr@),
        RemovalFailure::Deadline { .. } => "docker rm -f "@ + container + " exceeded its "@
            + decimal((deadline / 1_000_000_000) as nat) + "s deadline"@,
        RemovalFailure::Launch { error } => "docker rm failed to launch: "@ + error@,
        RemovalFailure::Wait { error } => "docker rm wait failed: "@ + error@,
        RemovalFailure::WaitCleanup { source, .. } => "docker rm wait failed: "@ + source@,
        RemovalFailure::Ssh { error } => error@,
    }
}

/// The evidence of a removal that took some time, under a deadline.
pub open spec fn removal_evidence(
    container: Seq<char>,
    deadline: u128,
    removal: Removal,
    elapsed_ms: u64,
) -> RemovalView {
    let plain = RemovalView {
        container,
        elapsed_ms,
        operation_elapsed_ms: elapsed_ms,
        deadline_ms: millis(deadline),
        client_cleanup: None,
        confirmed: false,
        already_absent: false,
        error: None,
    };
    match removal {
        Removal::Confirmed { already_absent } => RemovalView {
            confirmed: true,
            already_absent,
            ..plain
        },
        Removal::Unconfirmed { failure } => {
            let failed = RemovalView {
                error: Some(removal_error(container, deadline, failure)),
                ..plain
            };
            match failure {
                RemovalFailure::Deadline { operation_elapsed_ms, client_cleanup } => RemovalView {
                    operation_elapsed_ms,
                    client_cleanup: client_of(client_cleanup),
                    ..failed
                },
                RemovalFailure::WaitCleanup {
                    operation_elapsed_ms,
                    client_cleanup,
                    ..
                } => RemovalView {
                    operation_elapsed_ms,
                    client_cleanup: Some((client_cleanup.verified, text_of(client_cleanup.error))),
                    ..failed
                },
                _ => failed,
            }
        },
    }
}

/// The evidence of the removal of a server's container on its machine.
pub fn remove_server_container(
    container: &str,
    deadline: u128,
    removal: Removal,
    elapsed_ms: u64,
) -> (r: ContainerRemovalEvidence)
    ensures
        r@ == removal_evidence(container@, deadline, removal, elapsed_ms),
{
    let mut evidence = ContainerRemovalEvidence {
        container: container.to_owned(),
        elapsed_ms,
        operation_elapsed_ms: elapsed_ms,
        deadline_ms: duration_ms(deadline),
        client_cleanup: None,
        confirmed: false,
        already_absent: false,
        error: None,
    };
    match removal {
        Removal::Confirmed { already_absent } => {
            evidence.confirmed = true;
            evidence.already_absent = already_absent;
        },
        Removal::Unconfirmed { failure } => match failure {
            RemovalFailure::Exit { status, stderr } => {
                evidence.error = Some(
                    cat4("docker rm -f exited with ", status.as_str(), ": ", trim(stderr.as_str())),
                );
            },
            RemovalFailure::Deadline { operation_elapsed_ms, client_cleanup } => {
                let seconds: u128 = deadline / 1_000_000_000;
                evidence.error = Some(
                    cat5(
                        "docker rm -f ",
                        container,
                        " exceeded its ",
                        to_decimal_wide(seconds).as_str(),
                        "s deadline",
                    ),
                );
                evidence.operation_elapsed_ms = operation_elapsed_ms;
                evidence.client_cleanup = client_cleanup;
            },
            RemovalFailure::Launch { error } => {
                evidence.error = Some(cat2("docker rm failed to launch: ", error.as_str()));
            },
            RemovalFailure::Wait { error } => {
                evidence.error = Some(cat2("docker rm wait failed: ", error.as_str()));
            },
            RemovalFailure::WaitCleanup { source, operation_elapsed_ms, client_cleanup } => {
                evidence.error = Some(cat2("docker rm wait failed: ", source.as_str()));
                evidence.operation_elapsed_ms = operation_elapsed_ms;
                evidence.client_cleanup = Some(client_cleanup);
            },
            RemovalFailure::Ssh { error } => {
                evidence.error = Some(error);
            },
        },
    }
    evidence
}

/// What a removal came to, in words.
pub open spec fn removal_words(removal: RemovalView) -> Seq<char> {
    if removal.confirmed && removal.already_absent {
        "container "@ + removal.container + " was already absent"@
    } else if removal.confirmed {
        "container "@ + removal.container + " was removed"@
    } else {
        match removal.error {
            Some(error) => "container "@ + removal.container + " removal was not confirmed: "@
                + error,
            None => "container "@ + removal.container + " removal was not confirmed"@,
        }
    }
}

/// What a removal came to, in words.
pub fn removal_summary(removal: &ContainerRemovalEvidence) -> (r: String)
    ensures
        r@ == removal_words(removal@),
{
    let container = removal.container.as_str();
    if removal.confirmed {
        if removal.already_absent {
            cat3("container ", container, " was already absent")
        } else {
            cat3("container ", container, " was removed")
        }
    } else {
        match &removal.error {
            Some(error) => cat4(
                "container ",
                container,
                " removal was not confirmed: ",
                error.as_str(),
            ),
            None => cat3("container ", container, " removal was not confirmed"),
        }
    }
}

/// The cleanup of a process together with the removal of its container.
pub open spec fn with_removal(cleanup: CleanupView, removal: RemovalView) -> CleanupView {
    CleanupView {
        verified: cleanup.verified && removal.confirmed,
        error: if removal.confirmed || cleanup.error is Some {
            cleanup.error
        } else {
            Some(
                "container "@ + removal.container + " removal was not confirmed: "@
                    + match removal.error {
                    Some(error) => error,
                    None => "unknown outcome"@,
                },
            )
        },
        container_removal: Some(removal),
        ..cleanup
    }
}

/// The container that a process left behind, and the machine that it is on, where
/// that is another one.
pub open spec fn left_container(handle: ProcessHandle) -> Option<(Seq<char>, Option<Seq<char>>)> {
    match handle {
        ProcessHandle::Local(host) => match host.container {
            Some(container) => Some((container@, None)),
            None => None,
        },
        ProcessHandle::Ssh(remote) => match remote.container {
            Some(container) => Some((container@, Some(remote.target@))),
            None => None,
        },
    }
}

/// The container to remove once a process was stopped, whatever state its group was
/// found in, and the SSH target of the machine that it is on, where that is another
/// one.
pub fn container_to_remove<'a>(handle: &'a ProcessHandle) -> (r: Option<(&'a str, Option<&'a str>)>)
    ensures
        match r {
            None => left_container(*handle) is None,
            Some((container, target)) => left_container(*handle) == Some(
                (
                    container@,
                    match target {
                        Some(target) => Some(target@),
                        None => None,
                    },
                ),
            ),
        },
{
    match handle {
        ProcessHandle::Local(host) => match &host.container {
            Some(container) => Some((container.as_str(), None)),
            None => None,
        },
        ProcessHandle::Ssh(remote) => match &remote.container {
            Some(container) => Some((container.as_str(), Some(remote.target.as_str()))),
            None => None,
        },
    }
}

/// The name of the container that a process left behind.
pub open spec fn left_name(handle: ProcessHandle) -> Option<Seq<char>> {
    match left_container(handle) {
        Some((container, _)) => Some(container),
        None => None,
    }
}

/// Whether a removal is that of a container; there is none where there is no
/// container.
pub open spec fn removal_fits(container: Option<Seq<char>>, removal: Option<RemovalView>) -> bool {
    match container {
        None => removal is None,
        Some(name) => removal is Some && removal->0.container == name,
    }
}

/// The cleanup of a process together with the removal of what it left behind.
pub open spec fn terminated(cleanup: CleanupView, removal: Option<RemovalView>) -> CleanupView {
    match removal {
        None => cleanup,
        Some(found) => with_removal(cleanup, found),
    }
}

/// The cleanup of a process together with the removal of its container, where it
/// has one: a container outlives every state of the process group, so only a
/// confirmed removal leaves the cleanup verified.
pub fn terminate(
    handle: &ProcessHandle,
    evidence: CleanupEvidence,
    removal: Option<ContainerRemovalEvidence>,
) -> (r: CleanupEvidence)
    requires
        removal_fits(left_name(*handle), removal_of(removal)),
    ensures
        r@ == terminated(evidence@, removal_of(removal)),
{
    let mut evidence = evidence;
    match (container_to_remove(handle), removal) {
        (Some((container, _)), Some(removal)) => {
            if !removal.confirmed {
                evidence.verified = false;
                if evidence.error.is_none() {
                    let reason = match &removal.error {
                        Some(error) => error.as_str(),
                        None => "unknown outcome",
                    };
                    evidence.error = Some(
                        cat4(
                            "container ",
                            container,
                            " removal was not confirmed: ",
                            reason,
                        ),
                    );
                }
            }
            evidence.container_removal = Some(removal);
        },
        _ => {},
    }
    evidence
}

// ---------------------------------------------------------------------------
// Children of failed launches

/// What came of a step of clearing away the child of a failed launch.
#[derive(Debug)]
pub enum FailedLaunchEvent {
    /// The child was looked at: whether it had ended, or why that is not known.
    Inspected { ended: Result<bool, String> },
    /// The child's group was identified, or why it was not.
    Captured { identity: Result<(), String> },
    /// The group was killed and its child waited for: whether it was reaped in
    /// time, or why that is not known.
    Reaped { signal: SignalEvidence, reaped: Result<bool, String> },
}

/// What to do next about the child of a failed launch.
#[derive(Debug)]
pub enum FailedLaunchAction {
    /// Identify the child's group; the error of the look is kept.
    Capture { inspection: Option<String> },
    /// Kill the group, and give the child [`LOCAL_LAUNCH_FAILURE_REAP_GRACE`]; the
    /// error of the look is kept.
    Kill { inspection: Option<String> },
    /// The cleanup is over.
    Done { evidence: CleanupEvidence },
}

/// Whether an event can come of the last action; at first the child is looked at.
pub open spec fn failed_launch_expects(
    last: Option<FailedLaunchAction>,
    event: FailedLaunchEvent,
) -> bool {
    match last {
        None => event is Inspected,
        Some(FailedLaunchAction::Capture { .. }) => event is Captured,
        Some(FailedLaunchAction::Kill { .. }) => event is Reaped,
        Some(FailedLaunchAction::Done { .. }) => false,
    }
}

/// The error of the look at the child, which an action kept.
pub open spec fn kept_inspection(last: Option<FailedLaunchAction>) -> Option<String> {
    match last {
        Some(FailedLaunchAction::Capture { inspection }) => inspection,
        Some(FailedLaunchAction::Kill { inspection }) => inspection,
        _ => None,
    }
}

/// The cleanup of a failed launch's child: neither a query nor a grace went before
/// the kill, and the reaping has its own time.
pub open spec fn launch_cleanup(cleanup: CleanupView, elapsed_ms: u64) -> CleanupView {
    CleanupView {
        elapsed_ms,
        status_deadline_ms: 0,
        term_grace_ms: 0,
        reap_grace_ms: Some(millis(LOCAL_LAUNCH_FAILURE_REAP_GRACE)),
        ..cleanup
    }
}

/// Why a child was not reaped, in words.
pub open spec fn reap_fault(inspection: Option<Seq<char>>, reaped: Result<bool, Seq<char>>) -> Seq<
    char,
> {
    let fault = match reaped {
        Err(error) => "failed to reap failed launch child: "@ + error,
        Ok(_) => "child did not reap within "@ + decimal(
            (LOCAL_LAUNCH_FAILURE_REAP_GRACE / 1_000_000_000) as nat,
        ) + " seconds"@,
    };
    match inspection {
        Some(first) => first + "; "@ + fault,
        None => fault,
    }
}

/// Whether an action ends the cleanup with the evidence.
pub open spec fn launch_done(action: FailedLaunchAction, cleanup: CleanupView) -> bool {
    action matches FailedLaunchAction::Done { evidence } && evidence@ == cleanup
}

/// Whether an action is the one that an event calls for.
pub open spec fn failed_launch_is(
    action: FailedLaunchAction,
    last: Option<FailedLaunchAction>,
    event: FailedLaunchEvent,
    elapsed_ms: u64,
) -> bool {
    let trigger = CleanupTrigger::StartupRollback;
    match event {
        FailedLaunchEvent::Inspected { ended } => match ended {
            Ok(true) => launch_done(
                action,
                launch_cleanup(complete_cleanup(trigger, true, false, Seq::empty()), elapsed_ms),
            ),
            Ok(false) => action == (FailedLaunchAction::Capture { inspection: None }),
            Err(error) => action matches FailedLaunchAction::Capture { inspection: Some(text) }
                && text@ == "failed to inspect failed launch child: "@ + error@,
        },
        FailedLaunchEvent::Captured { identity } => match identity {
            Ok(()) => action == (FailedLaunchAction::Kill { inspection: kept_inspection(last) }),
            Err(error) => launch_done(
                action,
                launch_cleanup(
                    unavailable_cleanup(
                        trigger,
                        "failed to capture failed launch process-group identity: "@ + error@,
                    ),
                    elapsed_ms,
                ),
            ),
        },
        FailedLaunchEvent::Reaped { signal, reaped } => launch_done(
            action,
            launch_cleanup(
                if reaped == Ok::<bool, String>(true) {
                    complete_cleanup(trigger, false, true, seq![signal@])
                } else {
                    failed_cleanup(
                        trigger,
                        true,
                        seq![signal@],
                        reap_fault(
                            text_of(kept_inspection(last)),
                            crate::process_group::result_of(reaped),
                        ),
                    )
                },
                elapsed_ms,
            ),
        ),
    }
}

fn launch_over(evidence: CleanupEvidence, elapsed_ms: u64) -> (r: FailedLaunchAction)
    ensures
        launch_done(r, launch_cleanup(evidence@, elapsed_ms)),
{
    let mut evidence = evidence;
    evidence.elapsed_ms = elapsed_ms;
    evidence.status_deadline_ms = 0;
    evidence.term_grace_ms = 0;
    evidence.reap_grace_ms = Some(duration_ms(LOCAL_LAUNCH_FAILURE_REAP_GRACE));
    FailedLaunchAction::Done { evidence }
}

/// One step of clearing away the child of a local launch that failed after it was
/// started. The kill and the reaping decide; an error of the look before is only
/// told where they fail too. `last` is the action that the event came of.
pub fn cleanup_failed_local_launch(
    last: Option<FailedLaunchAction>,
    event: FailedLaunchEvent,
    elapsed_ms: u64,
) -> (r: FailedLaunchAction)
    requires
        failed_launch_expects(last, event),
    ensures
        failed_launch_is(r, last, event, elapsed_ms),
{
    let trigger = CleanupTrigger::StartupRollback;
    let ghost before = last;
    let inspection: Option<String> = match last {
        Some(FailedLaunchAction::Capture { inspection }) => inspection,
        Some(FailedLaunchAction::Kill { inspection }) => inspection,
        _ => None,
    };
    assert(inspection == kept_inspection(before));
    match event {
        FailedLaunchEvent::Inspected { ended } => match ended {
            Ok(true) => {
                let signals: Vec<SignalEvidence> = Vec::new();
                assert(signals_of(signals@) =~= Seq::empty());
                launch_over(completed_cleanup(trigger, true, false, signals), elapsed_ms)
            },
            Ok(false) => FailedLaunchAction::Capture { inspection: None },
            Err(error) => FailedLaunchAction::Capture {
                inspection: Some(cat2("failed to inspect failed launch child: ", error.as_str())),
            },
        },
        FailedLaunchEvent::Captured { identity } => match identity {
            Ok(()) => FailedLaunchAction::Kill { inspection },
            Err(error) => launch_over(
                CleanupEvidence::unavailable(
                    trigger,
                    cat2(
                        "failed to capture failed launch process-group identity: ",
                        error.as_str(),
                    ),
                ),
                elapsed_ms,
            ),
        },
        FailedLaunchEvent::Reaped { signal, reaped } => {
            let signals = vec![signal];
            assert(signals_of(signals@) =~= seq![signal@]);
            let fault = match reaped {
                Ok(true) => {
                    return launch_over(
                        completed_cleanup(trigger, false, true, signals),
                        elapsed_ms,
                    );
                },
                Ok(false) => cat3(
                    "child did not reap within ",
                    to_decimal_wide(LOCAL_LAUNCH_FAILURE_REAP_GRACE / 1_000_000_000).as_str(),
                    " seconds",
                ),
                Err(error) => cat2("failed to reap failed launch child: ", error.as_str()),
            };
            let error = match inspection {
                Some(first) => cat3(first.as_str(), "; ", fault.as_str()),
                None => fault,
            };
            launch_over(cleanup_error(trigger, true, signals, error), elapsed_ms)
        },
    }
}

// ---------------------------------------------------------------------------
// Laws

/// A local cleanup is only called verified when the group was seen without a live
/// member, or its leader's number had passed to another process.
pub proof fn law_verified_local_cleanup_saw_the_group_gone(
    action: LocalStopAction,
    handle: HostProcessHandle,
    trigger: CleanupTrigger,
    last: Option<LocalStopAction>,
    event: LocalStopEvent,
    elapsed_ms: u64,
)
    requires
        local_stop_expects(last, event),
        local_stop_is(action, handle, trigger, last, event, elapsed_ms),
        action matches LocalStopAction::Done { evidence } && evidence@.verified,
    ensures
        match event {
            LocalStopEvent::Checked { status } => status == Ok::<VerifiedStatus, String>(
                VerifiedStatus::Exited,
            ) || status == Ok::<VerifiedStatus, String>(VerifiedStatus::Reused),
            LocalStopEvent::Asked { stopped, .. } => stopped == Ok::<bool, String>(true),
            LocalStopEvent::Killed { stopped, .. } => stopped == Ok::<bool, String>(true),
        },
{
}

/// A group is killed only after it was asked to end and did not.
pub proof fn law_asked_before_killed(
    action: LocalStopAction,
    handle: HostProcessHandle,
    trigger: CleanupTrigger,
    last: Option<LocalStopAction>,
    event: LocalStopEvent,
    elapsed_ms: u64,
)
    requires
        local_stop_expects(last, event),
        local_stop_is(action, handle, trigger, last, event, elapsed_ms),
        action is Kill,
    ensures
        last == Some(LocalStopAction::Ask),
        event matches LocalStopEvent::Asked { stopped, .. } && stopped == Ok::<bool, String>(false),
{
}

/// A cleanup on another machine is only called verified on a report that shows no
/// live member.
pub proof fn law_verified_remote_cleanup_saw_the_group_gone(
    handle: SshProcessHandle,
    trigger: CleanupTrigger,
    answer: Result<CommandOutput, String>,
)
    requires
        remote_cleanup(handle, trigger, answer).verified,
    ensures
        answer matches Ok(output) && output.success && (cleanup_report(lossy_text(output.stdout@))
            matches Some(report) && (report.state is Already || report.state is Cleanup
            && !report.alive)),
{
}

/// A cleanup whose process left a container is verified only where the removal of
/// the container is confirmed, and says why where it is not.
pub proof fn law_verified_cleanup_removed_the_container(cleanup: CleanupView, removal: RemovalView)
    ensures
        with_removal(cleanup, removal).verified <==> cleanup.verified && removal.confirmed,
        !removal.confirmed ==> with_removal(cleanup, removal).error is Some,
        with_removal(cleanup, removal).container_removal == Some(removal),
{
}

/// A process that left a container behind is stopped for certain only where the
/// removal of that container is confirmed; one that left none only needs its group
/// gone.
pub proof fn law_stopped_process_left_no_container(
    handle: ProcessHandle,
    cleanup: CleanupView,
    removal: Option<RemovalView>,
)
    requires
        removal_fits(left_name(handle), removal),
        terminated(cleanup, removal).verified,
    ensures
        cleanup.verified,
        left_name(handle) matches Some(container) ==> {
            &&& terminated(cleanup, removal).container_removal == removal
            &&& removal is Some
            &&& removal->0.container == container
            &&& removal->0.confirmed
        },
        left_name(handle) is None ==> terminated(cleanup, removal) == cleanup,
{
}

/// A removal is confirmed only where the container client said so, and every other
/// outcome carries its reason.
pub proof fn law_unconfirmed_removal_has_a_reason(
    container: Seq<char>,
    deadline: u128,
    removal: Removal,
    elapsed_ms: u64,
)
    ensures
        removal_evidence(container, deadline, removal, elapsed_ms).confirmed <==> removal
            is Confirmed,
        removal is Unconfirmed ==> removal_evidence(
            container,
            deadline,
            removal,
            elapsed_ms,
        ).error is Some,
{
}

/// A local stop does what it is told: a live group is asked to end, one that does not is
/// killed, and the evidence holds exactly the signals that were sent, in their order. It
/// was forced exactly where the group was killed, and is verified exactly where it has no
/// error.
pub proof fn law_local_stop_tells_what_was_done(
    action: LocalStopAction,
    handle: HostProcessHandle,
    trigger: CleanupTrigger,
    last: Option<LocalStopAction>,
    event: LocalStopEvent,
    elapsed_ms: u64,
)
    requires
        handle.fault() is None,
        local_stop_expects(last, event),
        local_stop_is(action, handle, trigger, last, event, elapsed_ms),
    ensures
        action is Ask <==> (event matches LocalStopEvent::Checked { status } && status == Ok::<
            VerifiedStatus,
            String,
        >(VerifiedStatus::Alive)),
        action is Kill <==> (event matches LocalStopEvent::Asked { stopped, .. } && stopped == Ok::<
            bool,
            String,
        >(false)),
        action matches LocalStopAction::Done { evidence } ==> {
            &&& evidence@.trigger == trigger
            &&& evidence@.elapsed_ms == elapsed_ms
            &&& evidence@.verified <==> evidence@.error is None
            &&& evidence@.forced <==> event is Killed
            &&& event is Checked ==> evidence@.signals.len() == 0
            &&& (event matches LocalStopEvent::Asked { term, stopped } ==> evidence@.signals
                == seq![term@] && (evidence@.verified <==> stopped == Ok::<bool, String>(true)))
            &&& (event matches LocalStopEvent::Killed { kill, stopped } ==> (
            last matches Some(LocalStopAction::Kill { term }) && evidence@.signals
                == seq![term@, kill@] && (evidence@.verified <==> stopped == Ok::<bool, String>(
                true,
            ))))
            &&& (event matches LocalStopEvent::Checked { status } ==> (evidence@.verified <==> (
            status == Ok::<VerifiedStatus, String>(VerifiedStatus::Exited) || status == Ok::<
                VerifiedStatus,
                String,
            >(VerifiedStatus::Reused))) && (evidence@.already_exited <==> evidence@.verified))
        },
{
}

/// A report from another machine is taken as it stands: a group that was gone already is
/// verified without a signal, one that was ended is verified unless it is still alive,
/// with the signals that the report tells of, and one whose owner is in doubt never is.
pub proof fn law_remote_stop_tells_what_was_reported(
    handle: SshProcessHandle,
    trigger: CleanupTrigger,
    report: RemoteCleanupView,
    stderr: Seq<char>,
)
    ensures
        ({
            let told = reported_cleanup(handle, trigger, Some(report), stderr);
            &&& told.trigger == trigger
            &&& told.verified <==> told.error is None
            &&& report.state is Already ==> told.verified && told.already_exited && !told.forced
                && told.signals.len() == 0
            &&& report.state is Stale || report.state is Unknown ==> !told.verified
                && told.signals.len() == 0
            &&& report.state is Cleanup ==> {
                &&& told.verified <==> report.term_code is Some && !report.alive
                &&& report.term_code is Some ==> told.forced == report.forced
                &&& (report.term_code matches Some(term) ==> {
                    &&& told.signals.len() == 1 + (if report.kill_code is Some {
                        1int
                    } else {
                        0int
                    })
                    &&& told.signals[0].signal == TerminationSignal::Term
                    &&& told.signals[0].exit_code == Some(term)
                    &&& told.signals[0].process_group == handle.process_group
                })
                &&& report.term_code is Some ==> (report.kill_code matches Some(kill) ==> {
                    &&& told.signals[1].signal == TerminationSignal::Kill
                    &&& told.signals[1].exit_code == Some(kill)
                    &&& told.signals[1].process_group == handle.process_group
                })
            }
        }),
        !reported_cleanup(handle, trigger, None, stderr).verified,
{
}

/// The fields of a report are, in this order, the state, the code of the first signal,
/// whether the group was killed, the code of that, whether it is still alive, and a word.
pub proof fn law_report_is_read_by_its_fields(
    fields: Seq<Seq<char>>,
    term: nat,
    killed: bool,
    alive: bool,
)
    requires
        fields.len() == 6,
        term <= i32::MAX,
        fields[0] == "cleanup"@,
        fields[1] == decimal(term),
        fields[2] == if killed {
            "1"@
        } else {
            "0"@
        },
        fields[3] == if killed {
            "0"@
        } else {
            "-"@
        },
        fields[4] == if alive {
            "1"@
        } else {
            "0"@
        },
    ensures
        cleanup_fields(fields) matches Some(report) && {
            &&& report.state is Cleanup
            &&& report.term_code == Some(term as i32)
            &&& report.forced == killed
            &&& report.kill_code == (if killed {
                Some(0i32)
            } else {
                None
            })
            &&& report.alive == alive
            &&& report.detail == fields[5]
        },
{
    reveal_strlit("1");
    reveal_strlit("0");
    reveal_strlit("-");
    assert("0"@[0] == '0' && "1"@[0] == '1' && "-"@[0] == '-');
    assert("0"@.len() == 1);
    assert("0"@ =~= decimal(0));
    crate::text::law_decimal_reads_back(term);
    crate::text::law_decimal_reads_back(0);
    assert(crate::text::digit(decimal(term)[0]));
    lemma_parsed_signed(term);
    lemma_parsed_signed(0);
}

proof fn lemma_parsed_signed(n: nat)
    requires
        n <= i32::MAX,
    ensures
        parsed_signed(decimal(n)) == Some(n as int),
{
    crate::text::law_decimal_reads_back(n);
    crate::text::law_decimal_is_parsed_back(n, i32::MAX as nat);
    assert(crate::text::digit(decimal(n)[0]));
}

/// The script that stops a process on another machine names its group, its leader and
/// when that started, each as the number that the handle holds.
pub proof fn law_remote_stop_is_aimed_at_its_handle(handle: SshProcessHandle)
    ensures
        crate::text::decimal_value(cleanup_script(handle)[1]) == handle.process_group,
        crate::text::decimal_value(cleanup_script(handle)[3]) == handle.leader_pid,
        crate::text::decimal_value(cleanup_script(handle)[5]) == handle.leader_start_time_ticks,
{
    crate::text::law_decimal_reads_back(handle.process_group as nat);
    crate::text::law_decimal_reads_back(handle.leader_pid as nat);
    crate::text::law_decimal_reads_back(handle.leader_start_time_ticks as nat);
}

/// The child of a launch that failed is killed only where it still runs and could be
/// identified, and is known to be gone exactly where it had ended or was reaped.
pub proof fn law_child_of_a_failed_launch_is_reaped(
    action: FailedLaunchAction,
    last: Option<FailedLaunchAction>,
    event: FailedLaunchEvent,
    elapsed_ms: u64,
)
    requires
        failed_launch_expects(last, event),
        failed_launch_is(action, last, event, elapsed_ms),
    ensures
        action is Kill <==> (event matches FailedLaunchEvent::Captured { identity } && identity
            is Ok),
        action is Capture <==> (event matches FailedLaunchEvent::Inspected { ended } && ended
            != Ok::<bool, String>(true)),
        action matches FailedLaunchAction::Done { evidence } ==> {
            &&& evidence@.trigger == CleanupTrigger::StartupRollback
            &&& evidence@.elapsed_ms == elapsed_ms
            &&& evidence@.verified <==> evidence@.error is None
            &&& evidence@.verified <==> ({
                ||| (event matches FailedLaunchEvent::Inspected { ended } && ended == Ok::<
                    bool,
                    String,
                >(true))
                ||| (event matches FailedLaunchEvent::Reaped { reaped, .. } && reaped == Ok::<
                    bool,
                    String,
                >(true))
            })
            &&& (event matches FailedLaunchEvent::Reaped { signal, .. } ==> evidence@.signals
                == seq![signal@] && evidence@.forced)
        },
{
}

/// The evidence of a removal is that of its container, under its deadline; the container
/// was already absent only where the removal says so.
pub proof fn law_removal_tells_of_its_container(
    container: Seq<char>,
    deadline: u128,
    removal: Removal,
    elapsed_ms: u64,
)
    ensures
        ({
            let told = removal_evidence(container, deadline, removal, elapsed_ms);
            &&& told.container == container
            &&& told.elapsed_ms == elapsed_ms
            &&& told.deadline_ms == millis(deadline)
            &&& told.already_absent <==> (removal matches Removal::Confirmed { already_absent }
                && already_absent)
            &&& removal is Confirmed ==> told.error is None && told.operation_elapsed_ms
                == elapsed_ms
        }),
{
}

/// A container is removed on the machine that its process ran on.
pub proof fn law_container_is_removed_on_its_own_machine(handle: ProcessHandle)
    ensures
        left_container(handle) is Some <==> match handle {
            ProcessHandle::Local(host) => host.container is Some,
            ProcessHandle::Ssh(remote) => remote.container is Some,
        },
        handle matches ProcessHandle::Local(host) ==> (left_container(handle) matches Some((
            name,
            target,
        )) ==> name == host.container->0@ && target is None),
        handle matches ProcessHandle::Ssh(remote) ==> (left_container(handle) matches Some((
            name,
            target,
        )) ==> name == remote.container->0@ && target == Some(remote.target@)),
{
}

} // verus!
