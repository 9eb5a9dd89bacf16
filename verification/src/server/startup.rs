//! Starting a server: what follows each step, and how a start that fails is undone.

use crate::profiler::agent::ProfilerCleanupRecord;
use crate::profiler::capture::{finalization_succeeded, CaptureActionRecord};
use crate::profiler::target::ProfilerTargetRecord;
use crate::server::checks::EnvironmentCheckEvidence;
use crate::server::cleanup::{
    cleanup_outcome, unavailable_cleanup, CleanupEvidence, CleanupTrigger, CleanupView,
};
use crate::server::handle::ProcessHandle;
use crate::server::hardware::MachineHardwareEvidence;
use crate::server::launch::{LaunchFailure, LaunchFailureView};
use crate::server::readiness::{
    ReadinessEvidence, ReadinessFailure, ReadinessFailureKind, ReadinessView, UnreadyView,
};
use crate::server::record::{
    views_of, EvidenceView, FailureEvidence, FailurePhase, LogSyncEvidence, LogSyncView, RecordView,
    ServerProcessEvidence, ServerRecord, ServerStatus,
};
use crate::text::{cat2, cat3, cat4, copy_text, debug, debug_text, text_of, texts};
use vstd::prelude::*;
use vstd::string::*;

verus! {

/// The time that fetching the logs of a process on another machine may take.
pub const REMOTE_LOG_SYNC_DEADLINE: u128 = 30_000_000_000;

/// A step of undoing the start of a process.
#[derive(Clone, Copy, Debug, PartialEq, Eq, Structural)]
pub enum UndoStep {
    /// The collection of its profiler is ended.
    Finalize,
    /// It is stopped.
    Terminate,
    /// Its logs are fetched.
    Sync,
    /// The agent of its profiler is cleared away.
    Clean,
}

/// What a start is at.
#[derive(Clone, Copy, Debug, PartialEq, Eq, Structural)]
pub enum StartPhase {
    /// Checks and probes, before any process is launched.
    Preflight,
    /// The next process is prepared.
    Prepare,
    /// The next process is launched.
    Spawn,
    /// The handle of the last process is stored.
    StoreHandle,
    /// The next process is awaited.
    Await,
    /// The wait for the next process is under way.
    Wait,
    /// The readiness of the last process is stored.
    StoreReadiness,
    /// Every process is ready.
    Settle,
    /// The running server is stored.
    StoreRunning,
    /// The profiler of the process that could not be launched is cleared away.
    Disarm,
    /// The start of the first processes is undone, the last one first.
    Undo { left: usize, step: UndoStep },
    /// The failed server is stored.
    Persist,
    Started,
    Reported,
}

/// What to do next in a start.
#[derive(Clone, Copy, Debug, PartialEq, Eq, Structural)]
pub enum StartAction {
    /// Run the checks of the local realization.
    CheckLocal,
    /// Run the checks of a machine's realization.
    CheckRemote { host: usize },
    /// Probe the devices of a machine.
    Probe { target: usize },
    Prepare { process: usize },
    Spawn { process: usize },
    Store,
    Await { process: usize },
    Wait { process: usize },
    Settle,
    Finalize { process: usize },
    Terminate { process: usize },
    Sync { process: usize },
    Clean { process: usize },
    Persist,
    Started,
    Report,
}

/// What came of the checks of a realization: the evidence, and the message of the
/// one that failed, or why they could not be run.
pub type ChecksOutcome = Result<(Vec<EnvironmentCheckEvidence>, Option<String>), String>;

/// What came of a step of a start.
#[derive(Debug)]
pub enum StartEvent {
    /// The checks of the local realization.
    LocalChecks { outcome: ChecksOutcome },
    /// The checks of a machine's realization.
    RemoteChecks { outcome: ChecksOutcome },
    /// The probe of a machine's devices.
    Hardware { outcome: Result<MachineHardwareEvidence, String> },
    /// The process was prepared, unless the start was interrupted.
    Prepared { interrupted: bool, prepared: Result<Option<ProfilerTargetRecord>, String> },
    /// The process was launched.
    Spawned { outcome: Result<ProcessHandle, LaunchFailure> },
    /// The record was stored.
    Stored { outcome: Result<(), String>, interrupted: bool },
    /// The wait may begin, unless the start was interrupted.
    Awaited { interrupted: bool },
    /// The wait is over.
    Waited { outcome: Result<ReadinessEvidence, ReadinessFailure> },
    /// Every process is ready, unless the start was interrupted.
    Settled { interrupted: bool },
    /// The collection of a profiler was ended.
    Finalized { action: CaptureActionRecord },
    /// The process was stopped.
    Terminated { cleanup: CleanupEvidence },
    /// The logs were fetched.
    Synced { error: Option<String>, elapsed_ms: u64 },
    /// The agent of a profiler was cleared away.
    Cleaned { record: ProfilerCleanupRecord },
    /// The clock was read to store the failed server.
    Persisted { clock: Result<u64, String> },
}

/// What comes before any process is launched.
#[derive(Debug)]
pub struct PreflightPlan {
    /// Whether the declared checks are run, first here and then on the other machines.
    pub checks: bool,
    /// The other machines whose own realizations are checked, in their order.
    pub hosts: Vec<String>,
    /// The machines whose devices are probed, in their order.
    pub targets: Vec<String>,
}

/// The start of a server.
#[derive(Debug)]
pub struct Startup {
    pub plan: PreflightPlan,
    pub record: ServerRecord,
    /// How many realizations passed their checks: the first ones.
    pub checked: usize,
    /// How many processes were launched: the first ones.
    pub started: usize,
    /// How many processes are ready: the first ones.
    pub ready: usize,
    pub phase: StartPhase,
    /// Whether everything that was started is known to be gone.
    pub verified: bool,
    /// What is told of a start that failed.
    pub message: String,
}

/// The start of a server, as values.
#[verifier::ext_equal]
pub struct StartupView {
    pub plan: PreflightPlan,
    pub record: RecordView,
    pub checked: usize,
    pub started: usize,
    pub ready: usize,
    pub phase: StartPhase,
    pub verified: bool,
    pub message: Seq<char>,
}

impl View for Startup {
    type V = StartupView;

    open spec fn view(&self) -> StartupView {
        StartupView {
            plan: self.plan,
            record: self.record@,
            checked: self.checked,
            started: self.started,
            ready: self.ready,
            phase: self.phase,
            verified: self.verified,
            message: self.message@,
        }
    }
}

/// The message of a start that was interrupted.
pub open spec fn interrupted_words() -> Seq<char> {
    "server startup was interrupted"@
}

impl PreflightPlan {
    /// How many realizations are checked.
    pub open spec fn realizations(self) -> nat {
        if self.checks {
            1 + self.hosts@.len()
        } else {
            0
        }
    }
}

impl StartupView {
    /// The next step of the preflight: the checks here, then those of each other
    /// machine, then the probe of each machine.
    pub open spec fn preflight_action(self) -> StartAction {
        if self.checked < self.plan.realizations() {
            if self.checked == 0 {
                StartAction::CheckLocal
            } else {
                StartAction::CheckRemote { host: (self.checked - 1) as usize }
            }
        } else {
            StartAction::Probe { target: self.record.hardware.len() as usize }
        }
    }

    /// Every realization passed its checks and every machine was probed.
    pub open spec fn preflighted(self) -> bool {
        &&& self.checked == self.plan.realizations()
        &&& self.record.hardware.len() == self.plan.targets@.len()
    }

    /// The machines that were probed are the first of those that are to be.
    pub open spec fn probed_in_order(self) -> bool {
        &&& self.record.hardware.len() <= self.plan.targets@.len()
        &&& self.record.hardware.len() > 0 ==> self.checked == self.plan.realizations()
        &&& forall|i: int|
            0 <= i < self.record.hardware.len() ==> (#[trigger] self.record.hardware[i]).0
                == self.plan.targets@[i]
    }

    /// Processes are launched, or were.
    pub open spec fn launching(self) -> bool {
        self.started > 0 || match self.phase {
            StartPhase::Preflight => false,
            StartPhase::Undo { .. } => false,
            StartPhase::Persist => false,
            StartPhase::Reported => false,
            _ => true,
        }
    }

    /// What follows a step of the preflight.
    pub open spec fn after_step(self) -> StartupView {
        if self.preflighted() {
            self.launched()
        } else {
            self
        }
    }

    /// The number of processes.
    pub open spec fn count(self) -> nat {
        self.record.processes.len()
    }

    /// What is known of a process.
    pub open spec fn at(self, i: int) -> EvidenceView {
        self.record.process_evidence[i]
    }

    /// The first process that was stopped again; every later one that was launched was
    /// stopped too.
    pub open spec fn stopped_from(self) -> int {
        match self.phase {
            StartPhase::Undo { left, step } => if step == UndoStep::Sync || step == UndoStep::Clean {
                left - 1
            } else {
                left as int
            },
            StartPhase::Persist => 0,
            StartPhase::Reported => 0,
            _ => self.started as int,
        }
    }

    /// The processes that were stopped again have the evidence of it, and nothing is
    /// called gone that is not.
    pub open spec fn accounted(self) -> bool {
        forall|i: int|
            self.stopped_from() <= i < self.started ==> (#[trigger] self.at(i)).cleanup.len() > 0
                && (self.verified ==> self.at(i).cleanup.last().verified)
    }

    /// Only the processes that were launched have a handle, those that are ready have
    /// the evidence of it, and what the phase is about is there.
    pub open spec fn wf(self) -> bool {
        &&& self.record.wf()
        &&& self.ready <= self.started <= self.count()
        &&& self.count() <= usize::MAX
        &&& forall|i: int| 0 <= i < self.count() ==> ((#[trigger] self.at(i)).handle is Some <==> i
            < self.started)
        &&& forall|i: int| 0 <= i < self.ready ==> (#[trigger] self.at(i)).readiness is Some
        &&& self.accounted()
        &&& self.plan.hosts@.len() < usize::MAX
        &&& self.checked <= self.plan.realizations()
        &&& self.probed_in_order()
        &&& self.launching() ==> self.preflighted()
        &&& match self.phase {
            StartPhase::Preflight => self.started == 0 && self.ready == 0 && !self.preflighted(),
            StartPhase::Prepare => self.ready == 0 && self.started < self.count(),
            StartPhase::Spawn => self.ready == 0 && self.started < self.count(),
            StartPhase::StoreHandle => self.ready == 0 && self.started > 0,
            StartPhase::Await => self.ready < self.started == self.count(),
            StartPhase::Wait => self.ready < self.started == self.count(),
            StartPhase::StoreReadiness => 0 < self.ready && self.started == self.count(),
            StartPhase::Settle => self.ready == self.started == self.count(),
            StartPhase::StoreRunning => self.ready == self.started == self.count()
                && self.record.status == ServerStatus::Running,
            StartPhase::Disarm => self.started < self.count() && self.at(
                self.started as int,
            ).profiler is Some,
            StartPhase::Undo { left, step } => 0 < left <= self.started && ((step
                == UndoStep::Finalize || step == UndoStep::Clean) ==> self.at(left - 1).profiler
                is Some),
            _ => true,
        }
        &&& self.phase is Started ==> self.ready == self.count() && self.record.status
            == ServerStatus::Running
        &&& self.phase is Reported ==> self.record.status == ServerStatus::Failed && (
        self.record.finished_unix_ms is Some ==> self.verified)
        &&& !(self.phase is Reported) ==> self.record.finished_unix_ms is None
    }

    /// Whether an event can come in the phase.
    pub open spec fn expects(self, event: StartEvent) -> bool {
        match self.phase {
            StartPhase::Preflight => match self.preflight_action() {
                StartAction::CheckLocal => event is LocalChecks,
                StartAction::CheckRemote { .. } => event is RemoteChecks,
                _ => event is Hardware,
            },
            StartPhase::Prepare => event is Prepared,
            StartPhase::Spawn => event is Spawned,
            StartPhase::StoreHandle => event is Stored,
            StartPhase::Await => event is Awaited,
            StartPhase::Wait => event is Waited,
            StartPhase::StoreReadiness => event is Stored,
            StartPhase::Settle => event is Settled,
            StartPhase::StoreRunning => event is Stored,
            StartPhase::Disarm => event is Cleaned,
            StartPhase::Undo { step, .. } => match step {
                UndoStep::Finalize => event is Finalized,
                UndoStep::Terminate => event is Terminated,
                UndoStep::Sync => event is Synced,
                UndoStep::Clean => event is Cleaned,
            },
            StartPhase::Persist => event is Persisted,
            _ => false,
        }
    }

    /// What to do in the phase.
    pub open spec fn action(self) -> StartAction {
        match self.phase {
            StartPhase::Preflight => self.preflight_action(),
            StartPhase::Prepare => StartAction::Prepare { process: self.started },
            StartPhase::Spawn => StartAction::Spawn { process: self.started },
            StartPhase::StoreHandle => StartAction::Store,
            StartPhase::Await => StartAction::Await { process: self.ready },
            StartPhase::Wait => StartAction::Wait { process: self.ready },
            StartPhase::StoreReadiness => StartAction::Store,
            StartPhase::Settle => StartAction::Settle,
            StartPhase::StoreRunning => StartAction::Store,
            StartPhase::Disarm => StartAction::Clean { process: self.started },
            StartPhase::Undo { left, step } => match step {
                UndoStep::Finalize => StartAction::Finalize { process: (left - 1) as usize },
                UndoStep::Terminate => StartAction::Terminate { process: (left - 1) as usize },
                UndoStep::Sync => StartAction::Sync { process: (left - 1) as usize },
                UndoStep::Clean => StartAction::Clean { process: (left - 1) as usize },
            },
            StartPhase::Persist => StartAction::Persist,
            StartPhase::Started => StartAction::Started,
            StartPhase::Reported => StartAction::Report,
        }
    }

    /// The start in another phase.
    pub open spec fn to(self, phase: StartPhase) -> StartupView {
        StartupView { phase, ..self }
    }

    /// The start with another record.
    pub open spec fn with(self, record: RecordView) -> StartupView {
        StartupView { record, ..self }
    }

    /// The start with other evidence of a process.
    pub open spec fn knowing(self, i: int, evidence: EvidenceView) -> StartupView {
        self.with(self.record.with_evidence(i, evidence))
    }

    /// The start with one more thing that is known to be gone, or not.
    pub open spec fn and_gone(self, gone: bool) -> StartupView {
        StartupView { verified: self.verified && gone, ..self }
    }

    /// What follows when the first processes are left to undo.
    pub open spec fn undo(self, left: usize) -> StartupView {
        self.to(
            if left == 0 {
                StartPhase::Persist
            } else if self.at(left - 1).profiler is Some {
                StartPhase::Undo { left, step: UndoStep::Finalize }
            } else {
                StartPhase::Undo { left, step: UndoStep::Terminate }
            },
        )
    }

    /// The start with a failure.
    pub open spec fn failing(
        self,
        phase: FailurePhase,
        process: Option<Seq<char>>,
        message: Seq<char>,
    ) -> StartupView {
        StartupView {
            record: self.record.with_failure(phase, process, message),
            message,
            ..self
        }
    }

    /// The start fails, and what was started is undone.
    pub open spec fn fail(
        self,
        phase: FailurePhase,
        process: Option<Seq<char>>,
        message: Seq<char>,
    ) -> StartupView {
        self.failing(phase, process, message).undo(self.started)
    }

    /// The start fails because of an interruption.
    pub open spec fn interrupt(self, process: Option<Seq<char>>) -> StartupView {
        self.fail(FailurePhase::Interrupted, process, interrupted_words())
    }

    /// What follows once all of some processes were launched.
    pub open spec fn launched(self) -> StartupView {
        self.to(
            if self.started < self.count() {
                StartPhase::Prepare
            } else if self.ready < self.count() {
                StartPhase::Await
            } else {
                StartPhase::Settle
            },
        )
    }

    /// The id of a process.
    pub open spec fn id(self, i: int) -> Option<Seq<char>> {
        Some(self.record.processes[i])
    }

    /// The start after checks.
    pub open spec fn take_checks(
        self,
        outcome: ChecksOutcome,
        fault: Seq<char>,
        local: bool,
    ) -> StartupView {
        match outcome {
            Err(error) => self.fail(FailurePhase::Preflight, None, fault + error@),
            Ok((evidence, failure)) => {
                let known = self.with(
                    RecordView {
                        environment_checks: if local {
                            evidence@
                        } else {
                            self.record.environment_checks + evidence@
                        },
                        ..self.record
                    },
                );
                match failure {
                    Some(message) => known.fail(FailurePhase::Preflight, None, message@),
                    None => StartupView {
                        checked: (self.checked + 1) as usize,
                        ..known
                    }.after_step(),
                }
            },
        }
    }

    /// What is kept of the cleanup of a process that could not be launched.
    pub open spec fn launch_cleanup(failure: LaunchFailureView) -> Seq<CleanupView> {
        match (failure.cleanup, failure.container_removal) {
            (Some(cleanup), _) => seq![cleanup],
            (None, Some(removal)) => seq![
                CleanupView {
                    elapsed_ms: removal.elapsed_ms,
                    container_removal: Some(removal),
                    ..cleanup_outcome(
                        CleanupTrigger::StartupRollback,
                        !failure.ownership_unknown,
                        false,
                        false,
                        Seq::empty(),
                        if failure.ownership_unknown {
                            Some(failure.message)
                        } else {
                            None
                        },
                    )
                },
            ],
            (None, None) => if failure.ownership_unknown {
                seq![
                    unavailable_cleanup(
                        CleanupTrigger::StartupRollback,
                        "SSH launch may have started a process before its handle was returned"@,
                    ),
                ]
            } else {
                Seq::empty()
            },
        }
    }

    /// The start after a process could not be launched: what the launch left behind
    /// is cleared away first, then what was started is undone.
    pub open spec fn unlaunched(self, failure: LaunchFailureView) -> StartupView {
        let i = self.started as int;
        let failed = self.failing(FailurePhase::Launch, self.id(i), failure.message);
        let known = failed.knowing(
            i,
            EvidenceView {
                cleanup: self.at(i).cleanup + StartupView::launch_cleanup(failure),
                ..self.at(i)
            },
        ).and_gone(!failure.ownership_unknown);
        if self.at(i).profiler is Some {
            known.to(StartPhase::Disarm)
        } else {
            known.undo(self.started)
        }
    }

    /// The start after the record was stored.
    pub open spec fn stored(self, outcome: Result<(), Seq<char>>, interrupted: bool) -> StartupView {
        match self.phase {
            StartPhase::StoreHandle => match outcome {
                Err(error) => self.fail(
                    FailurePhase::Record,
                    self.id(self.started - 1),
                    "failed to persist handle for process "@ + debug_text(
                        self.record.processes[self.started - 1],
                    ) + ": "@ + error,
                ),
                Ok(()) => if interrupted {
                    self.interrupt(self.id(self.started - 1))
                } else {
                    self.launched()
                },
            },
            StartPhase::StoreReadiness => match outcome {
                Err(error) => self.fail(
                    FailurePhase::Record,
                    self.id(self.ready - 1),
                    "failed to persist readiness for process "@ + debug_text(
                        self.record.processes[self.ready - 1],
                    ) + ": "@ + error,
                ),
                Ok(()) => if interrupted {
                    self.interrupt(self.id(self.ready - 1))
                } else {
                    self.launched()
                },
            },
            _ => match outcome {
                Err(error) => self.fail(
                    FailurePhase::Record,
                    None,
                    "failed to persist running server state: "@ + error,
                ),
                Ok(()) => self.to(StartPhase::Started),
            },
        }
    }

    /// The start after a wait.
    pub open spec fn waited(self, outcome: Result<ReadinessView, UnreadyView>) -> StartupView {
        let i = self.ready as int;
        match outcome {
            Ok(readiness) => StartupView {
                ready: (self.ready + 1) as usize,
                ..self.knowing(i, EvidenceView { readiness: Some(readiness), ..self.at(i) })
            }.to(StartPhase::StoreReadiness),
            Err(failure) => self.knowing(
                i,
                EvidenceView { readiness_failure: Some(failure), ..self.at(i) },
            ).fail(
                if failure.kind == ReadinessFailureKind::Interrupted {
                    FailurePhase::Interrupted
                } else {
                    FailurePhase::Readiness
                },
                self.id(i),
                failure.message,
            ),
        }
    }

    /// The start after a step of undoing.
    pub open spec fn undone(self, left: usize, event: StartEvent) -> StartupView {
        let i = left - 1;
        let known = self.at(i);
        match event {
            StartEvent::Finalized { action } => self.knowing(
                i,
                EvidenceView { profiler_finalization: Some(action@), ..known },
            ).and_gone(action@.finalized()).to(
                StartPhase::Undo { left, step: UndoStep::Terminate },
            ),
            StartEvent::Terminated { cleanup } => self.knowing(
                i,
                EvidenceView { cleanup: known.cleanup.push(cleanup@), ..known },
            ).and_gone(cleanup@.verified).to(StartPhase::Undo { left, step: UndoStep::Sync }),
            StartEvent::Synced { error, elapsed_ms } => {
                let synced = self.knowing(i, log_synced(known, text_of(error), elapsed_ms));
                if known.profiler is Some {
                    synced.to(StartPhase::Undo { left, step: UndoStep::Clean })
                } else {
                    synced.undo((left - 1) as usize)
                }
            },
            StartEvent::Cleaned { record } => self.knowing(
                i,
                EvidenceView { profiler_cleanup: Some(record@), ..known },
            ).and_gone(record@.verified).undo((left - 1) as usize),
            _ => self,
        }
    }

    /// Whether the failed server is stored before it is told: not where everything is
    /// known to be gone and there is no time at which it finished.
    pub open spec fn stored_at_end(self) -> bool {
        !self.verified || self.record.finished_unix_ms is Some
    }

    /// Storing the record is what failed.
    pub open spec fn unstored(self) -> bool {
        self.record.failure is Some && self.record.failure->0.phase == FailurePhase::Record
    }

    /// The start after the failed server was made up: it is finished where
    /// everything is known to be gone, and left unfinished otherwise.
    pub open spec fn persisted(self, clock: Result<u64, Seq<char>>) -> StartupView {
        let failed = RecordView { status: ServerStatus::Failed, ..self.record };
        let told = self.message + "; record "@ + self.record.id;
        if !self.verified {
            StartupView {
                record: RecordView { finished_unix_ms: None, ..failed },
                message: told,
                ..self
            }.to(StartPhase::Reported)
        } else {
            match clock {
                Ok(millis) => StartupView {
                    record: RecordView { finished_unix_ms: Some(millis), ..failed },
                    message: told,
                    ..self
                }.to(StartPhase::Reported),
                Err(error) => StartupView {
                    record: failed,
                    message: if self.unstored() {
                        told
                    } else {
                        "system clock is before Unix epoch: "@ + error
                    },
                    ..self
                }.to(StartPhase::Reported),
            }
        }
    }

    /// The start after an event.
    pub open spec fn next(self, event: StartEvent) -> StartupView {
        match self.phase {
            StartPhase::Preflight => match event {
                StartEvent::LocalChecks { outcome } => self.take_checks(
                    outcome,
                    "environment check execution failed: "@,
                    true,
                ),
                StartEvent::RemoteChecks { outcome } => self.take_checks(
                    outcome,
                    "environment check execution failed on machine "@ + debug_text(
                        self.plan.hosts@[self.checked - 1]@,
                    ) + ": "@,
                    false,
                ),
                StartEvent::Hardware { outcome } => {
                    let machine = self.plan.targets@[self.record.hardware.len() as int];
                    match outcome {
                        Ok(evidence) => self.with(
                            RecordView {
                                hardware: self.record.hardware.push((machine, evidence)),
                                ..self.record
                            },
                        ).after_step(),
                        Err(error) => self.fail(
                            FailurePhase::Preflight,
                            None,
                            "device hardware probe failed on machine "@ + debug_text(machine@)
                                + ": "@ + error@,
                        ),
                    }
                },
                _ => self,
            },
            StartPhase::Prepare => match event {
                StartEvent::Prepared { interrupted, prepared } => {
                    let i = self.started as int;
                    if interrupted {
                        self.interrupt(self.id(i))
                    } else {
                        match prepared {
                            Err(error) => self.fail(FailurePhase::Launch, self.id(i), error@),
                            Ok(target) => self.knowing(
                                i,
                                EvidenceView { profiler: target, ..self.at(i) },
                            ).to(StartPhase::Spawn),
                        }
                    }
                },
                _ => self,
            },
            StartPhase::Spawn => match event {
                StartEvent::Spawned { outcome } => match outcome {
                    Ok(handle) => StartupView {
                        started: (self.started + 1) as usize,
                        ..self.knowing(
                            self.started as int,
                            EvidenceView {
                                handle: Some(handle),
                                ..self.at(self.started as int)
                            },
                        )
                    }.to(StartPhase::StoreHandle),
                    Err(failure) => self.unlaunched(failure@),
                },
                _ => self,
            },
            StartPhase::Await => match event {
                StartEvent::Awaited { interrupted } => if interrupted {
                    self.interrupt(self.id(self.ready as int))
                } else {
                    self.to(StartPhase::Wait)
                },
                _ => self,
            },
            StartPhase::Wait => match event {
                StartEvent::Waited { outcome } => self.waited(
                    match outcome {
                        Ok(readiness) => Ok(readiness@),
                        Err(failure) => Err(failure@),
                    },
                ),
                _ => self,
            },
            StartPhase::Settle => match event {
                StartEvent::Settled { interrupted } => if interrupted {
                    self.interrupt(None)
                } else {
                    self.with(RecordView { status: ServerStatus::Running, ..self.record }).to(
                        StartPhase::StoreRunning,
                    )
                },
                _ => self,
            },
            StartPhase::Disarm => match event {
                StartEvent::Cleaned { record } => self.knowing(
                    self.started as int,
                    EvidenceView {
                        profiler_cleanup: Some(record@),
                        ..self.at(self.started as int)
                    },
                ).and_gone(record@.verified).undo(self.started),
                _ => self,
            },
            StartPhase::Undo { left, .. } => self.undone(left, event),
            StartPhase::Persist => match event {
                StartEvent::Persisted { clock } => self.persisted(
                    crate::process_group::result_of(clock),
                ),
                _ => self,
            },
            _ => match event {
                StartEvent::Stored { outcome, interrupted } => self.stored(
                    crate::process_group::result_of(outcome),
                    interrupted,
                ),
                _ => self,
            },
        }
    }
}

/// Whether the record is stored between two actions: after checks that passed and
/// once every machine was probed. A start that fails is stored at its end.
pub open spec fn stored_between(before: StartAction, after: StartAction) -> bool {
    &&& !(after is Persist)
    &&& before is CheckLocal || before is CheckRemote || (before is Probe && !(after is Probe))
}

/// Whether the record is stored between two actions.
pub fn stores_between(before: StartAction, after: StartAction) -> (r: bool)
    ensures
        r == stored_between(before, after),
{
    match (before, after) {
        (_, StartAction::Persist) => false,
        (StartAction::CheckLocal, _) => true,
        (StartAction::CheckRemote { .. }, _) => true,
        (StartAction::Probe { .. }, StartAction::Probe { .. }) => false,
        (StartAction::Probe { .. }, _) => true,
        _ => false,
    }
}

/// What is known of a process after its logs were fetched.
pub open spec fn log_synced(evidence: EvidenceView, error: Option<Seq<char>>, elapsed_ms: u64) -> EvidenceView {
    EvidenceView {
        log_sync_error: error,
        log_sync: Some(
            LogSyncView {
                elapsed_ms,
                deadline_ms: if evidence.handle is Some && evidence.handle->0 is Ssh {
                    Some(crate::time_bound::millis(REMOTE_LOG_SYNC_DEADLINE))
                } else {
                    None
                },
                succeeded: error is None,
                error,
            },
        ),
        ..evidence
    }
}

// ---------------------------------------------------------------------------
// Steps on evidence

/// Notes that the logs of a process were fetched.
pub fn sync_logs_for_process(
    evidence: &mut ServerProcessEvidence,
    error: Option<String>,
    elapsed_ms: u64,
)
    ensures
        final(evidence)@ == log_synced(old(evidence)@, text_of(error), elapsed_ms),
{
    let remote: bool = match &evidence.handle {
        Some(ProcessHandle::Ssh(_)) => true,
        _ => false,
    };
    evidence.log_sync_error = copy_text(&error);
    let succeeded: bool = error.is_none();
    evidence.log_sync = Some(
        LogSyncEvidence {
            elapsed_ms,
            deadline_ms: if remote {
                Some(crate::time_bound::duration_ms(REMOTE_LOG_SYNC_DEADLINE))
            } else {
                None
            },
            succeeded,
            error,
        },
    );
}

/// Notes what came of a cleanup of a process.
pub fn push_cleanup(evidence: &mut ServerProcessEvidence, cleanup: CleanupEvidence)
    ensures
        final(evidence)@ == (EvidenceView {
            cleanup: old(evidence)@.cleanup.push(cleanup@),
            ..old(evidence)@
        }),
{
    let ghost before = evidence.cleanup@;
    evidence.cleanup.push(cleanup);
    assert(views_of(evidence.cleanup@) =~= views_of(before).push(cleanup@));
}

/// The views after one entry was changed.
pub proof fn lemma_views_update(before: Seq<ServerProcessEvidence>, after: Seq<ServerProcessEvidence>, i: int)
    requires
        0 <= i < before.len(),
        after == before.update(i, after[i]),
    ensures
        views_of(after) == views_of(before).update(i, after[i]@),
{
    assert(views_of(after) =~= views_of(before).update(i, after[i]@));
}

impl Startup {
    /// A start that begins with a new record.
    pub fn new(record: ServerRecord, plan: PreflightPlan) -> (r: Startup)
        requires
            record@.wf(),
            record@.finished_unix_ms is None,
            record@.hardware.len() == 0,
            plan.hosts@.len() < usize::MAX,
            forall|i: int|
                0 <= i < record@.process_evidence.len() ==> (
                #[trigger] record@.process_evidence[i]).handle is None,
        ensures
            r@.wf(),
            r@ == (StartupView {
                plan,
                record: record@,
                checked: 0,
                started: 0,
                ready: 0,
                phase: StartPhase::Preflight,
                verified: true,
                message: Seq::empty(),
            }).after_step(),
    {
        let message = String::new();
        assert(message@ =~= Seq::empty());
        let ghost count = record.processes@.len();
        let n: usize = record.processes.len();
        assert(texts(record.processes@).len() == n);
        let mut start = Startup {
            plan,
            record,
            checked: 0,
            started: 0,
            ready: 0,
            phase: StartPhase::Preflight,
            verified: true,
            message,
        };
        start.end_step();
        start
    }

    fn all_checked(&self) -> (r: bool)
        requires
            self.plan.hosts@.len() < usize::MAX,
            self.checked <= self.plan.realizations(),
        ensures
            r == (self.checked == self.plan.realizations()),
    {
        !self.plan.checks || self.checked == self.plan.hosts.len() + 1
    }

    /// Ends a step of the preflight.
    fn end_step(&mut self)
        requires
            old(self).plan.hosts@.len() < usize::MAX,
            old(self).checked <= old(self).plan.realizations(),
        ensures
            final(self)@ == old(self)@.after_step(),
    {
        if self.all_checked() && self.record.hardware.len() == self.plan.targets.len() {
            self.go_on();
        }
    }

    /// What to do next.
    pub fn action(&self) -> (r: StartAction)
        requires
            self@.wf(),
        ensures
            r == self@.action(),
    {
        match self.phase {
            StartPhase::Preflight => if !self.all_checked() {
                if self.checked == 0 {
                    StartAction::CheckLocal
                } else {
                    StartAction::CheckRemote { host: self.checked - 1 }
                }
            } else {
                StartAction::Probe { target: self.record.hardware.len() }
            },
            StartPhase::Prepare => StartAction::Prepare { process: self.started },
            StartPhase::Spawn => StartAction::Spawn { process: self.started },
            StartPhase::StoreHandle => StartAction::Store,
            StartPhase::Await => StartAction::Await { process: self.ready },
            StartPhase::Wait => StartAction::Wait { process: self.ready },
            StartPhase::StoreReadiness => StartAction::Store,
            StartPhase::Settle => StartAction::Settle,
            StartPhase::StoreRunning => StartAction::Store,
            StartPhase::Disarm => StartAction::Clean { process: self.started },
            StartPhase::Undo { left, step } => match step {
                UndoStep::Finalize => StartAction::Finalize { process: left - 1 },
                UndoStep::Terminate => StartAction::Terminate { process: left - 1 },
                UndoStep::Sync => StartAction::Sync { process: left - 1 },
                UndoStep::Clean => StartAction::Clean { process: left - 1 },
            },
            StartPhase::Persist => StartAction::Persist,
            StartPhase::Started => StartAction::Started,
            StartPhase::Reported => StartAction::Report,
        }
    }

    fn id_at(&self, i: usize) -> (r: Option<String>)
        requires
            i < self.record.processes@.len(),
        ensures
            text_of(r) == self@.id(i as int),
    {
        assert(texts(self.record.processes@)[i as int] == self.record.processes@[i as int]@);
        Some(self.record.processes[i].clone())
    }

    fn begin_undo(&mut self, left: usize)
        requires
            left <= old(self).record.process_evidence@.len(),
        ensures
            final(self)@ == old(self)@.undo(left),
    {
        if left == 0 {
            self.phase = StartPhase::Persist;
        } else {
            assert(self@.at(left - 1) == self.record.process_evidence@[left - 1]@);
            if self.record.process_evidence[left - 1].profiler.is_some() {
                self.phase = StartPhase::Undo { left, step: UndoStep::Finalize };
            } else {
                self.phase = StartPhase::Undo { left, step: UndoStep::Terminate };
            }
        }
    }

    fn set_failure(&mut self, phase: FailurePhase, process_id: Option<String>, message: String)
        ensures
            final(self)@ == old(self)@.failing(phase, text_of(process_id), message@),
            final(self).record.process_evidence@ == old(self).record.process_evidence@,
    {
        self.message = message.clone();
        self.record.failure = Some(FailureEvidence { phase, process_id, message });
    }

    fn fail(&mut self, phase: FailurePhase, process_id: Option<String>, message: String)
        requires
            old(self).started <= old(self).record.process_evidence@.len(),
        ensures
            final(self)@ == old(self)@.fail(phase, text_of(process_id), message@),
    {
        self.set_failure(phase, process_id, message);
        let left: usize = self.started;
        self.begin_undo(left);
    }

    fn interrupt(&mut self, process_id: Option<String>)
        requires
            old(self).started <= old(self).record.process_evidence@.len(),
        ensures
            final(self)@ == old(self)@.interrupt(text_of(process_id)),
    {
        self.fail(
            FailurePhase::Interrupted,
            process_id,
            "server startup was interrupted".to_owned(),
        );
    }

    fn go_on(&mut self)
        ensures
            final(self)@ == old(self)@.launched(),
    {
        let count: usize = self.record.processes.len();
        assert(texts(self.record.processes@).len() == count);
        if self.started < count {
            self.phase = StartPhase::Prepare;
        } else if self.ready < count {
            self.phase = StartPhase::Await;
        } else {
            self.phase = StartPhase::Settle;
        }
    }

    fn take_checks(&mut self, outcome: ChecksOutcome, fault: &str, local: bool)
        requires
            old(self)@.wf(),
            old(self).checked < old(self).plan.realizations(),
        ensures
            final(self)@ == old(self)@.take_checks(outcome, fault@, local),
    {
        match outcome {
            Err(error) => {
                self.fail(FailurePhase::Preflight, None, cat2(fault, error.as_str()));
            },
            Ok((evidence, failure)) => {
                if local {
                    self.record.environment_checks = evidence;
                } else {
                    let mut evidence = evidence;
                    self.record.environment_checks.append(&mut evidence);
                }
                match failure {
                    Some(message) => {
                        self.fail(FailurePhase::Preflight, None, message);
                    },
                    None => {
                        self.checked += 1;
                        self.end_step();
                    },
                }
            },
        }
    }

    fn take_preflight(&mut self, event: StartEvent)
        requires
            old(self)@.wf(),
            old(self)@.phase is Preflight,
            old(self)@.expects(event),
        ensures
            final(self)@ == old(self)@.next(event),
    {
        match event {
            StartEvent::LocalChecks { outcome } => {
                self.take_checks(outcome, "environment check execution failed: ", true);
            },
            StartEvent::RemoteChecks { outcome } => {
                let fault = cat3(
                    "environment check execution failed on machine ",
                    debug(self.plan.hosts[self.checked - 1].as_str()).as_str(),
                    ": ",
                );
                self.take_checks(outcome, fault.as_str(), false);
            },
            StartEvent::Hardware { outcome } => {
                let machine = self.plan.targets[self.record.hardware.len()].clone();
                match outcome {
                    Ok(evidence) => {
                        self.record.hardware.push((machine, evidence));
                        self.end_step();
                    },
                    Err(error) => {
                        let message = cat4(
                            "device hardware probe failed on machine ",
                            debug(machine.as_str()).as_str(),
                            ": ",
                            error.as_str(),
                        );
                        self.fail(FailurePhase::Preflight, None, message);
                    },
                }
            },
            _ => {},
        }
    }

    fn take_prepared(
        &mut self,
        interrupted: bool,
        prepared: Result<Option<ProfilerTargetRecord>, String>,
    )
        requires
            old(self)@.wf(),
            old(self)@.phase is Prepare,
        ensures
            final(self)@ == old(self)@.next(StartEvent::Prepared { interrupted, prepared }),
    {
        let i: usize = self.started;
        let id = self.id_at(i);
        if interrupted {
            self.interrupt(id);
            return;
        }
        match prepared {
            Err(error) => {
                self.fail(FailurePhase::Launch, id, error);
            },
            Ok(target) => {
                let ghost before = self.record.process_evidence@;
                self.record.process_evidence[i].profiler = target;
                proof {
                    lemma_views_update(before, self.record.process_evidence@, i as int);
                }
                self.phase = StartPhase::Spawn;
            },
        }
    }
}

impl Startup {
    fn take_spawned(&mut self, outcome: Result<ProcessHandle, LaunchFailure>)
        requires
            old(self)@.wf(),
            old(self)@.phase is Spawn,
        ensures
            final(self)@ == old(self)@.next(StartEvent::Spawned { outcome }),
    {
        let ghost start = self@;
        let i: usize = self.started;
        let id = self.id_at(i);
        let ghost before = self.record.process_evidence@;
        assert(start.at(i as int) == before[i as int]@);
        let failure = match outcome {
            Ok(handle) => {
                self.record.process_evidence[i].handle = Some(handle);
                proof {
                    lemma_views_update(before, self.record.process_evidence@, i as int);
                }
                self.started = self.started + 1;
                self.phase = StartPhase::StoreHandle;
                return;
            },
            Err(failure) => failure,
        };
        let ghost told = failure@;
        let ghost kept = StartupView::launch_cleanup(told);
        let LaunchFailure { message, ownership_unknown, container_removal, cleanup } = failure;
        let own: Option<CleanupEvidence> = match cleanup {
            Some(cleanup) => Some(cleanup),
            None => match container_removal {
                Some(removal) => {
                    let error: Option<String> = if ownership_unknown {
                        Some(message.clone())
                    } else {
                        None
                    };
                    Some(
                        CleanupEvidence::from_launch_removal(
                            CleanupTrigger::StartupRollback,
                            !ownership_unknown,
                            removal,
                            error,
                        ),
                    )
                },
                None => if ownership_unknown {
                    Some(
                        CleanupEvidence::unavailable(
                            CleanupTrigger::StartupRollback,
                            "SSH launch may have started a process before its handle was returned".to_owned(),
                        ),
                    )
                } else {
                    None
                },
            },
        };
        self.set_failure(FailurePhase::Launch, id, message);
        match own {
            Some(cleanup) => {
                assert(kept =~= seq![cleanup@]);
                push_cleanup(&mut self.record.process_evidence[i], cleanup);
                proof {
                    lemma_views_update(before, self.record.process_evidence@, i as int);
                    assert(before[i as int]@.cleanup.push(cleanup@) =~= before[i as int]@.cleanup
                        + kept);
                }
            },
            None => {
                proof {
                    assert(kept =~= Seq::empty());
                    assert(before[i as int]@.cleanup + kept =~= before[i as int]@.cleanup);
                    assert(before.update(i as int, before[i as int]) =~= before);
                    lemma_views_update(before, self.record.process_evidence@, i as int);
                }
            },
        }
        self.verified = self.verified && !ownership_unknown;
        let ghost known = start.failing(
            FailurePhase::Launch,
            start.id(i as int),
            told.message,
        ).knowing(
            i as int,
            EvidenceView {
                cleanup: start.at(i as int).cleanup + kept,
                ..start.at(i as int)
            },
        ).and_gone(!told.ownership_unknown);
        assert(self@ =~= known);
        if self.record.process_evidence[i].profiler.is_some() {
            self.phase = StartPhase::Disarm;
        } else {
            self.begin_undo(i);
        }
    }

    fn take_stored(&mut self, outcome: Result<(), String>, interrupted: bool)
        requires
            old(self)@.wf(),
            old(self)@.expects(StartEvent::Stored { outcome, interrupted }),
        ensures
            final(self)@ == old(self)@.stored(
                crate::process_group::result_of(outcome),
                interrupted,
            ),
    {
        match self.phase {
            StartPhase::StoreHandle => {
                let i: usize = self.started - 1;
                let id = self.id_at(i);
                assert(texts(self.record.processes@)[i as int]
                    == self.record.processes@[i as int]@);
                match outcome {
                    Err(error) => {
                        let message = cat4(
                            "failed to persist handle for process ",
                            debug(self.record.processes[i].as_str()).as_str(),
                            ": ",
                            error.as_str(),
                        );
                        self.fail(FailurePhase::Record, id, message);
                    },
                    Ok(()) => if interrupted {
                        self.interrupt(id);
                    } else {
                        self.go_on();
                    },
                }
            },
            StartPhase::StoreReadiness => {
                let i: usize = self.ready - 1;
                let id = self.id_at(i);
                assert(texts(self.record.processes@)[i as int]
                    == self.record.processes@[i as int]@);
                match outcome {
                    Err(error) => {
                        let message = cat4(
                            "failed to persist readiness for process ",
                            debug(self.record.processes[i].as_str()).as_str(),
                            ": ",
                            error.as_str(),
                        );
                        self.fail(FailurePhase::Record, id, message);
                    },
                    Ok(()) => if interrupted {
                        self.interrupt(id);
                    } else {
                        self.go_on();
                    },
                }
            },
            _ => match outcome {
                Err(error) => {
                    let message = cat2(
                        "failed to persist running server state: ",
                        error.as_str(),
                    );
                    self.fail(FailurePhase::Record, None, message);
                },
                Ok(()) => {
                    self.phase = StartPhase::Started;
                },
            },
        }
    }

    fn take_waited(&mut self, outcome: Result<ReadinessEvidence, ReadinessFailure>)
        requires
            old(self)@.wf(),
            old(self)@.phase is Wait,
        ensures
            final(self)@ == old(self)@.next(StartEvent::Waited { outcome }),
    {
        let ghost start = self@;
        let i: usize = self.ready;
        let id = self.id_at(i);
        let ghost before = self.record.process_evidence@;
        assert(start.at(i as int) == before[i as int]@);
        match outcome {
            Ok(readiness) => {
                self.record.process_evidence[i].readiness = Some(readiness);
                proof {
                    lemma_views_update(before, self.record.process_evidence@, i as int);
                }
                self.ready = self.ready + 1;
                self.phase = StartPhase::StoreReadiness;
            },
            Err(failure) => {
                let phase = match failure.kind {
                    ReadinessFailureKind::Interrupted => FailurePhase::Interrupted,
                    _ => FailurePhase::Readiness,
                };
                let message = failure.message.clone();
                self.record.process_evidence[i].readiness_failure = Some(failure);
                proof {
                    lemma_views_update(before, self.record.process_evidence@, i as int);
                    assert(self@ =~= start.knowing(
                        i as int,
                        EvidenceView {
                            readiness_failure: Some(failure@),
                            ..start.at(i as int)
                        },
                    ));
                }
                self.fail(phase, id, message);
            },
        }
    }

    fn take_undone(&mut self, left: usize, event: StartEvent)
        requires
            old(self)@.wf(),
            old(self)@.phase matches StartPhase::Undo { left: at, .. } && at == left,
            old(self)@.expects(event),
        ensures
            final(self)@ == old(self)@.undone(left, event),
    {
        let ghost start = self@;
        let i: usize = left - 1;
        let ghost before = self.record.process_evidence@;
        assert(start.at(i as int) == before[i as int]@);
        match event {
            StartEvent::Finalized { action } => {
                let ended: bool = finalization_succeeded(&action);
                self.record.process_evidence[i].profiler_finalization = Some(action);
                proof {
                    lemma_views_update(before, self.record.process_evidence@, i as int);
                }
                self.verified = self.verified && ended;
                self.phase = StartPhase::Undo { left, step: UndoStep::Terminate };
            },
            StartEvent::Terminated { cleanup } => {
                self.verified = self.verified && cleanup.verified;
                push_cleanup(&mut self.record.process_evidence[i], cleanup);
                proof {
                    lemma_views_update(before, self.record.process_evidence@, i as int);
                }
                self.phase = StartPhase::Undo { left, step: UndoStep::Sync };
            },
            StartEvent::Synced { error, elapsed_ms } => {
                let profiled: bool = self.record.process_evidence[i].profiler.is_some();
                sync_logs_for_process(&mut self.record.process_evidence[i], error, elapsed_ms);
                proof {
                    lemma_views_update(before, self.record.process_evidence@, i as int);
                }
                if profiled {
                    self.phase = StartPhase::Undo { left, step: UndoStep::Clean };
                } else {
                    self.begin_undo(i);
                }
            },
            StartEvent::Cleaned { record } => {
                self.verified = self.verified && record.verified;
                self.record.process_evidence[i].profiler_cleanup = Some(record);
                proof {
                    lemma_views_update(before, self.record.process_evidence@, i as int);
                }
                self.begin_undo(i);
            },
            _ => {},
        }
    }

    /// Whether the failed server is stored before it is told.
    pub fn stores_at_end(&self) -> (r: bool)
        ensures
            r == self@.stored_at_end(),
    {
        !self.verified || self.record.finished_unix_ms.is_some()
    }

    /// Whether storing the record is what failed. Then a failure to store the failed
    /// server is not told: the first one is.
    pub fn is_unstored(&self) -> (r: bool)
        ensures
            r == self@.unstored(),
    {
        match &self.record.failure {
            Some(failure) => failure.phase == FailurePhase::Record,
            None => false,
        }
    }

    fn take_persisted(&mut self, clock: Result<u64, String>)
        ensures
            final(self)@ == old(self)@.persisted(crate::process_group::result_of(clock)),
    {
        let told = cat3(self.message.as_str(), "; record ", self.record.id.as_str());
        self.record.status = ServerStatus::Failed;
        self.phase = StartPhase::Reported;
        if !self.verified {
            self.record.finished_unix_ms = None;
            self.message = told;
            return;
        }
        match clock {
            Ok(millis) => {
                self.record.finished_unix_ms = Some(millis);
                self.message = told;
            },
            Err(error) => {
                let of_record: bool = self.is_unstored();
                self.message = if of_record {
                    told
                } else {
                    cat2("system clock is before Unix epoch: ", error.as_str())
                };
            },
        }
    }

    /// The start stays in order through every step.
    #[verifier::spinoff_prover]
    #[verifier::rlimit(80)]
    proof fn lemma_next_is_wf(before: StartupView, event: StartEvent)
        requires
            before.wf(),
            before.expects(event),
        ensures
            before.next(event).wf(),
    {
        let after = before.next(event);
        let n = before.count();
        assert forall|i: int| 0 <= i < n implies ((#[trigger] after.at(i)).handle is Some <==> i
            < after.started) by {
            assert(before.at(i).handle is Some <==> i < before.started);
        }
        assert forall|i: int| 0 <= i < after.ready implies (#[trigger] after.at(i)).readiness
            is Some by {
            if i < before.ready {
                assert(before.at(i).readiness is Some);
            }
        }
        assert forall|i: int| after.stopped_from() <= i < after.started implies (
        #[trigger] after.at(i)).cleanup.len() > 0 && (after.verified
            ==> after.at(i).cleanup.last().verified) by {
            if before.stopped_from() <= i < before.started {
                assert(before.at(i).cleanup.len() > 0);
            }
        }
    }

    /// One step of starting a server: what came of the step before, and what to do
    /// next. Processes are launched in order and then awaited in order; where one
    /// fails, or the start is interrupted, what was started is undone, the last one
    /// first.
    pub fn start_with_runtime(&mut self, event: StartEvent) -> (r: StartAction)
        requires
            old(self)@.wf(),
            old(self)@.expects(event),
        ensures
            final(self)@.wf(),
            final(self)@ == old(self)@.next(event),
            r == final(self)@.action(),
    {
        proof {
            Startup::lemma_next_is_wf(self@, event);
        }
        match self.phase {
            StartPhase::Preflight => {
                self.take_preflight(event);
            },
            StartPhase::Undo { left, .. } => {
                self.take_undone(left, event);
            },
            _ => match event {
                StartEvent::Prepared { interrupted, prepared } => {
                    self.take_prepared(interrupted, prepared);
                },
                StartEvent::Spawned { outcome } => {
                    self.take_spawned(outcome);
                },
                StartEvent::Stored { outcome, interrupted } => {
                    self.take_stored(outcome, interrupted);
                },
                StartEvent::Awaited { interrupted } => {
                    let i: usize = self.ready;
                    let id = self.id_at(i);
                    if interrupted {
                        self.interrupt(id);
                    } else {
                        self.phase = StartPhase::Wait;
                    }
                },
                StartEvent::Waited { outcome } => {
                    self.take_waited(outcome);
                },
                StartEvent::Settled { interrupted } => {
                    if interrupted {
                        self.interrupt(None);
                    } else {
                        self.record.status = ServerStatus::Running;
                        self.phase = StartPhase::StoreRunning;
                    }
                },
                StartEvent::Cleaned { record } => {
                    let i: usize = self.started;
                    let ghost before = self.record.process_evidence@;
                    assert(self@.at(i as int) == before[i as int]@);
                    self.verified = self.verified && record.verified;
                    self.record.process_evidence[i].profiler_cleanup = Some(record);
                    proof {
                        lemma_views_update(before, self.record.process_evidence@, i as int);
                    }
                    self.begin_undo(i);
                },
                StartEvent::Persisted { clock } => {
                    self.take_persisted(clock);
                },
                _ => {},
            },
        }
        self.action()
    }
}

// ---------------------------------------------------------------------------
// Laws

/// A server is only told started where every process was launched and became ready.
pub proof fn law_started_server_is_ready(start: StartupView, i: int)
    requires
        start.wf(),
        start.phase is Started,
        0 <= i < start.count(),
    ensures
        start.at(i).handle is Some,
        start.at(i).readiness is Some,
        start.record.status == ServerStatus::Running,
{
}

/// A start that fails leaves no launched process without the evidence that it was
/// stopped again.
pub proof fn law_failed_start_stops_every_launched_process(start: StartupView, i: int)
    requires
        start.wf(),
        start.phase is Reported,
        0 <= i < start.count(),
        start.at(i).handle is Some,
    ensures
        start.at(i).cleanup.len() > 0,
        start.record.status == ServerStatus::Failed,
{
    assert(start.at(i).handle is Some <==> i < start.started);
}

/// A start that fails is finished only where every launched process is known to be
/// gone.
pub proof fn law_finished_failure_left_nothing_running(start: StartupView, i: int)
    requires
        start.wf(),
        start.phase is Reported,
        start.record.finished_unix_ms is Some,
        0 <= i < start.count(),
        start.at(i).handle is Some,
    ensures
        start.at(i).cleanup.last().verified,
{
    assert(start.at(i).handle is Some <==> i < start.started);
}

/// What was started is undone the last one first: after a step about a process, the
/// next one is about the same process or the one before it.
pub proof fn law_undone_in_reverse_order(start: StartupView, event: StartEvent)
    requires
        start.wf(),
        start.expects(event),
        start.phase is Undo,
    ensures
        match start.next(event).phase {
            StartPhase::Undo { left, .. } => left == start.phase->left || left + 1
                == start.phase->left,
            StartPhase::Persist => start.phase->left == 1,
            _ => false,
        },
{
}

/// A start that fails never ends as a started one, whatever comes after.
pub proof fn law_failing_start_never_succeeds(start: StartupView, event: StartEvent)
    requires
        start.wf(),
        start.expects(event),
        start.phase is Undo || start.phase is Persist || start.phase is Disarm,
    ensures
        start.next(event).phase is Undo || start.next(event).phase is Persist || start.next(
            event,
        ).phase is Reported,
{
}

/// No process is launched unless every realization passed its declared checks, here
/// and on each other machine, and the devices of every machine were probed.
pub proof fn law_no_launch_before_the_preflight(start: StartupView)
    requires
        start.wf(),
        start.action() is Prepare || start.action() is Spawn || start.started > 0,
    ensures
        start.checked == start.plan.realizations(),
        start.record.hardware.len() == start.plan.targets@.len(),
        forall|i: int|
            0 <= i < start.plan.targets@.len() ==> (#[trigger] start.record.hardware[i]).0
                == start.plan.targets@[i],
{
}

/// A step of the preflight that fails launches nothing and ends the start; one that
/// passes is followed by the next.
pub proof fn law_failed_preflight_launches_nothing(start: StartupView, event: StartEvent)
    requires
        start.wf(),
        start.phase is Preflight,
        start.expects(event),
    ensures
        start.next(event).started == 0,
        match event {
            StartEvent::LocalChecks { outcome } => outcome is Err || outcome->Ok_0.1 is Some,
            StartEvent::RemoteChecks { outcome } => outcome is Err || outcome->Ok_0.1 is Some,
            StartEvent::Hardware { outcome } => outcome is Err,
            _ => false,
        } <==> start.next(event).phase is Persist,
        !(start.next(event).phase is Persist) ==> start.next(event).checked
            + start.next(event).record.hardware.len() == start.checked
            + start.record.hardware.len() + 1,
{
}

/// A failed server is stored at its end unless it cannot be finished for want of a
/// clock.
pub proof fn law_failed_start_is_stored(start: StartupView, clock: Result<u64, Seq<char>>)
    requires
        start.wf(),
        start.phase is Persist,
    ensures
        start.persisted(clock).stored_at_end() <==> !start.verified || clock is Ok,
{
}

/// An interruption before a process is launched, while it is stored or before it is
/// awaited ends the start, with the words for it.
pub proof fn law_interruption_ends_the_start(start: StartupView, event: StartEvent)
    requires
        start.wf(),
        start.expects(event),
        match event {
            StartEvent::Prepared { interrupted, .. } => interrupted,
            StartEvent::Stored { outcome, interrupted } => outcome is Ok && interrupted && !(
            start.phase is StoreRunning),
            StartEvent::Awaited { interrupted } => interrupted,
            StartEvent::Settled { interrupted } => interrupted,
            _ => false,
        },
    ensures
        start.next(event).record.failure is Some,
        start.next(event).record.failure->0.phase == FailurePhase::Interrupted,
        start.next(event).record.failure->0.message == interrupted_words(),
        start.next(event).phase is Undo || start.next(event).phase is Persist,
{
}

/// What comes of a launch is kept for the process that was to be launched, and of no
/// other: its handle where it was launched, and a failure that names it where it was not.
pub proof fn law_launch_is_recorded_for_its_process(
    start: StartupView,
    outcome: Result<ProcessHandle, LaunchFailure>,
    j: int,
)
    requires
        start.wf(),
        start.phase is Spawn,
        0 <= j < start.count(),
    ensures
        ({
            let i = start.started as int;
            let next = start.next(StartEvent::Spawned { outcome });
            &&& j != i ==> next.at(j) == start.at(j)
            &&& (outcome matches Ok(handle) ==> next.at(i).handle == Some(handle) && next.started
                == start.started + 1 && next.action() == StartAction::Store && next.record.failure
                == start.record.failure)
            &&& (outcome matches Err(failure) ==> {
                &&& next.started == start.started
                &&& next.at(i).handle is None
                &&& next.record.failure matches Some(told) && told.phase == FailurePhase::Launch
                    && told.process_id == Some(start.record.processes[i]) && told.message
                    == failure@.message
                &&& next.verified ==> start.verified && !failure@.ownership_unknown
            })
        }),
{
}

/// What comes of a wait is kept for the process that was awaited: that it is ready, or
/// why it is not, as a failure of the start that names it.
pub proof fn law_wait_is_recorded_for_its_process(
    start: StartupView,
    outcome: Result<ReadinessView, UnreadyView>,
    j: int,
)
    requires
        start.wf(),
        start.phase is Wait,
        0 <= j < start.count(),
    ensures
        ({
            let i = start.ready as int;
            let next = start.waited(outcome);
            &&& j != i ==> next.at(j) == start.at(j)
            &&& next.at(i).handle == start.at(i).handle
            &&& (outcome matches Ok(readiness) ==> next.at(i).readiness == Some(readiness)
                && next.ready == start.ready + 1 && next.action() == StartAction::Store)
            &&& (outcome matches Err(failure) ==> {
                &&& next.ready == start.ready
                &&& next.at(i).readiness_failure == Some(failure)
                &&& next.record.failure matches Some(told) && told.process_id == Some(
                    start.record.processes[i],
                ) && told.message == failure.message && (told.phase == FailurePhase::Interrupted
                    <==> failure.kind == ReadinessFailureKind::Interrupted) && (told.phase
                    == FailurePhase::Readiness <==> failure.kind
                    != ReadinessFailureKind::Interrupted)
                &&& !(next.action() is Await) && !(next.action() is Settle) && !(next.action()
                    is Started)
            })
        }),
{
}

/// Processes are launched one after the other, in their order, then awaited one after the
/// other, in their order, and only then is the server running.
pub proof fn law_processes_are_started_in_order(start: StartupView, event: StartEvent)
    requires
        start.wf(),
        start.expects(event),
    ensures
        ({
            let then = start.next(event).action();
            &&& (then matches StartAction::Prepare { process } ==> process
                == start.next(event).started)
            &&& (then matches StartAction::Spawn { process } ==> process == start.started)
            &&& (then matches StartAction::Await { process } ==> process == start.next(event).ready
                && start.next(event).started == start.count())
            &&& (then matches StartAction::Wait { process } ==> process == start.ready
                && start.started == start.count())
            &&& then is Settle ==> start.next(event).ready == start.count()
            &&& start.next(event).record.status == ServerStatus::Running ==> start.record.status
                == ServerStatus::Running || (start.phase is Settle && event == (
            StartEvent::Settled { interrupted: false }))
        }),
{
}

/// An interruption at a point where it is looked for fails the start as interrupted, and
/// what was launched is undone.
pub proof fn law_interruption_fails_the_start(start: StartupView, event: StartEvent)
    requires
        start.wf(),
        start.expects(event),
        match event {
            StartEvent::Prepared { interrupted, .. } => interrupted,
            StartEvent::Awaited { interrupted } => interrupted,
            StartEvent::Settled { interrupted } => interrupted,
            StartEvent::Stored { outcome, interrupted } => interrupted && outcome is Ok && !(
            start.phase is StoreRunning),
            _ => false,
        },
    ensures
        start.next(event).record.failure matches Some(told) && told.phase
            == FailurePhase::Interrupted,
        start.next(event).phase is Undo || start.next(event).phase is Persist,
        start.started > 0 ==> (start.next(event).phase matches StartPhase::Undo { left, .. } && left
            == start.started),
        start.next(event).record.status == start.record.status,
{
}

/// A step of undoing is kept for the process that it is about, and leaves every other one
/// as it was; whatever is not known to be gone leaves the start in doubt.
pub proof fn law_undoing_is_recorded_for_its_process(start: StartupView, event: StartEvent, j: int)
    requires
        start.wf(),
        start.expects(event),
        start.phase is Undo,
        0 <= j < start.count(),
    ensures
        ({
            let i = start.phase->left - 1;
            let next = start.next(event);
            &&& j != i ==> next.at(j) == start.at(j)
            &&& next.record.failure == start.record.failure
            &&& next.message == start.message
            &&& next.at(i).handle == start.at(i).handle
            &&& (event matches StartEvent::Terminated { cleanup } ==> next.at(i).cleanup == start.at(
                i,
            ).cleanup.push(cleanup@) && next.verified == (start.verified && cleanup@.verified))
            &&& (event matches StartEvent::Finalized { action } ==> next.at(i).profiler_finalization
                == Some(action@) && next.verified == (start.verified && action@.finalized()))
            &&& (event matches StartEvent::Cleaned { record } ==> next.at(i).profiler_cleanup == Some(
                record@,
            ) && next.verified == (start.verified && record@.verified))
            &&& event is Synced ==> next.verified == start.verified && next.at(i).cleanup
                == start.at(i).cleanup
        }),
{
}

/// The evidence of checks is kept: that of the checks here, then that of each other
/// machine behind it.
pub proof fn law_checks_are_recorded(start: StartupView, outcome: ChecksOutcome, fault: Seq<char>)
    ensures
        outcome matches Ok((evidence, failure)) ==> {
            &&& start.take_checks(outcome, fault, true).record.environment_checks == evidence@
            &&& start.take_checks(outcome, fault, false).record.environment_checks
                == start.record.environment_checks + evidence@
            &&& (failure matches Some(message) ==> (start.take_checks(
                outcome,
                fault,
                true,
            ).record.failure matches Some(told) && told.message == message@ && told.phase
                == FailurePhase::Preflight))
        },
{
}

/// A server whose start failed is failed; it is finished at the time that the clock tells
/// exactly where everything is known to be gone, and its record is named.
pub proof fn law_failed_start_is_finished_where_all_is_gone(start: StartupView, millis: u64)
    requires
        start.wf(),
        start.phase is Persist,
    ensures
        ({
            let next = start.persisted(Ok(millis));
            &&& next.record.status == ServerStatus::Failed
            &&& next.record.finished_unix_ms == (if start.verified {
                Some(millis)
            } else {
                None
            })
            &&& next.message == start.message + "; record "@ + start.record.id
            &&& next.record.failure == start.record.failure
            &&& next.record.process_evidence == start.record.process_evidence
        }),
{
}

/// The fetch of logs is recorded as it came, under a deadline only where the logs are on
/// another machine, and changes nothing else of a process.
pub proof fn law_log_fetch_is_recorded(evidence: EvidenceView, error: Option<Seq<char>>, elapsed_ms: u64)
    ensures
        ({
            let next = log_synced(evidence, error, elapsed_ms);
            &&& next.log_sync_error == error
            &&& next.log_sync matches Some(told) && told.elapsed_ms == elapsed_ms && told.error
                == error && (told.succeeded <==> error is None) && (told.deadline_ms is Some <==> (
            evidence.handle matches Some(handle) && handle is Ssh))
            &&& next.handle == evidence.handle && next.cleanup == evidence.cleanup
                && next.readiness == evidence.readiness && next.stdout == evidence.stdout
                && next.stderr == evidence.stderr
        }),
{
}

/// What a launch that failed left of its cleanup is kept as it came; where it may have left a
/// process behind and cleaned nothing up, that is kept as a cleanup in doubt, and where it
/// left nothing, nothing is kept.
pub proof fn law_failed_launch_is_kept_in_doubt(failure: LaunchFailureView)
    ensures
        ({
            let kept = StartupView::launch_cleanup(failure);
            &&& failure.cleanup matches Some(cleanup) ==> kept.len() == 1 && kept[0] == cleanup
            &&& failure.cleanup is None && failure.ownership_unknown ==> kept.len() == 1
                && !kept[0].verified && kept[0].error is Some
            &&& failure.cleanup is None && !failure.ownership_unknown
                && failure.container_removal is None ==> kept.len() == 0
            &&& failure.cleanup is None && failure.container_removal is Some ==> kept.len() == 1
                && kept[0].container_removal == failure.container_removal && kept[0].verified
                == !failure.ownership_unknown
        }),
{
}

/// A process is undone step by step: its profiler is ended before the process is, then its
/// logs are fetched, and what its profiler left is cleaned up last.
pub proof fn law_process_is_undone_step_by_step(start: StartupView, event: StartEvent)
    requires
        start.wf(),
        start.expects(event),
        start.phase is Undo,
    ensures
        ({
            let left = start.phase->left;
            let profiled = start.at(left - 1).profiler is Some;
            let then = start.next(event).phase;
            &&& event is Finalized ==> then == (StartPhase::Undo {
                left,
                step: UndoStep::Terminate,
            })
            &&& event is Terminated ==> then == (StartPhase::Undo { left, step: UndoStep::Sync })
            &&& event is Synced && profiled ==> then == (StartPhase::Undo {
                left,
                step: UndoStep::Clean,
            })
            &&& (event is Cleaned || (event is Synced && !profiled)) && left == 1 ==> then
                == StartPhase::Persist
            &&& (event is Cleaned || (event is Synced && !profiled)) && left > 1 ==> then == (
            StartPhase::Undo {
                left: (left - 1) as usize,
                step: if start.at(left - 2).profiler is Some {
                    UndoStep::Finalize
                } else {
                    UndoStep::Terminate
                },
            })
        }),
{
}

} // verus!
