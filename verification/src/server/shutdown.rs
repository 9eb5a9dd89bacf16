//! Stopping a server, and what is told of one that runs.

use crate::error::InferlabError;
use crate::paths::{join_path, joined_path};
use crate::process_group::result_of;
use crate::profiler::agent::ProfilerCleanupRecord;
use crate::profiler::capture::{finalization_succeeded, CaptureActionRecord};
use crate::record::{lifecycle_error, refuses_lifecycle, RECORDS_DIR};
use crate::server::cleanup::{unavailable_cleanup, CleanupEvidence, CleanupTrigger};
use crate::server::handle::{ProcessStatus, StatusView};
use crate::server::record::{
    view_of, views_of, EvidenceView, FailureEvidence, FailurePhase, FailureView, RecordView,
    ServerRecord, ServerStatus,
};
use crate::server::startup::{
    lemma_views_update, log_synced, push_cleanup, sync_logs_for_process,
};
use crate::text::{cat2, cat3, cat5, cat6, debug, debug_text, text_of, texts};
use vstd::prelude::*;
use vstd::string::*;

verus! {

/// A step of stopping a process.
#[derive(Clone, Copy, Debug, PartialEq, Eq, Structural)]
pub enum StopStep {
    /// The collection of its profiler is ended.
    Finalize,
    /// It is noted that it has no handle.
    Note,
    /// It is stopped.
    Terminate,
    /// Its logs are fetched.
    Sync,
    /// The agent of its profiler is cleared away.
    Clean,
}

/// What a stop is at.
#[derive(Clone, Copy, Debug, PartialEq, Eq, Structural)]
pub enum StopPhase {
    /// The first processes are left to stop, the last one first.
    Stop { left: usize, step: StopStep },
    /// The server is stored.
    Persist,
    /// The server is stopped.
    Stopped,
    /// The server could not be stopped for certain.
    Reported,
}

/// What to do next in a stop.
#[derive(Clone, Copy, Debug, PartialEq, Eq, Structural)]
pub enum StopAction {
    Finalize { process: usize },
    Note { process: usize },
    Terminate { process: usize },
    Sync { process: usize },
    Clean { process: usize },
    Persist,
    Stopped,
    Report,
}

/// What came of a step of a stop.
#[derive(Debug)]
pub enum StopEvent {
    /// The collection of a profiler was ended.
    Finalized { action: CaptureActionRecord },
    /// The missing handle was noted.
    Noted,
    /// The process was stopped.
    Terminated { cleanup: CleanupEvidence },
    /// The logs were fetched.
    Synced { error: Option<String>, elapsed_ms: u64 },
    /// The agent of a profiler was cleared away.
    Cleaned { record: ProfilerCleanupRecord },
    /// The clock was read to store the server.
    Persisted { clock: Result<u64, String> },
}

/// The stop of a server.
#[derive(Debug)]
pub struct Shutdown {
    pub record: ServerRecord,
    pub phase: StopPhase,
    /// Whether everything is known to be gone.
    pub verified: bool,
    pub first_error: Option<String>,
    /// What is told of a stop that is not certain.
    pub message: String,
}

/// The stop of a server, as values.
#[verifier::ext_equal]
pub struct ShutdownView {
    pub record: RecordView,
    pub phase: StopPhase,
    pub verified: bool,
    pub first_error: Option<Seq<char>>,
    pub message: Seq<char>,
}

impl View for Shutdown {
    type V = ShutdownView;

    open spec fn view(&self) -> ShutdownView {
        ShutdownView {
            record: self.record@,
            phase: self.phase,
            verified: self.verified,
            first_error: text_of(self.first_error),
            message: self.message@,
        }
    }
}

impl ShutdownView {
    /// The number of processes.
    pub open spec fn count(self) -> nat {
        self.record.processes.len()
    }

    /// What is known of a process.
    pub open spec fn at(self, i: int) -> EvidenceView {
        self.record.process_evidence[i]
    }

    /// The first process that was dealt with; every later one was too.
    pub open spec fn stopped_from(self) -> int {
        match self.phase {
            StopPhase::Stop { left, step } => if step == StopStep::Sync || step == StopStep::Clean {
                left - 1
            } else {
                left as int
            },
            _ => 0,
        }
    }

    /// What the phase is about is there, and nothing is called gone that is not.
    pub open spec fn wf(self) -> bool {
        &&& self.record.wf()
        &&& self.count() <= usize::MAX
        &&& forall|i: int|
            self.stopped_from() <= i < self.count() ==> (#[trigger] self.at(i)).cleanup.len() > 0
                && (self.verified ==> self.at(i).handle is Some && self.at(
                i,
            ).cleanup.last().verified)
        &&& match self.phase {
            StopPhase::Stop { left, step } => 0 < left <= self.count() && match step {
                StopStep::Finalize => self.at(left - 1).profiler is Some,
                StopStep::Clean => self.at(left - 1).profiler is Some,
                StopStep::Note => self.at(left - 1).handle is None,
                StopStep::Terminate => self.at(left - 1).handle is Some,
                StopStep::Sync => self.at(left - 1).handle is Some,
            },
            StopPhase::Stopped => self.verified && self.record.finished_unix_ms is Some,
            StopPhase::Reported => self.record.finished_unix_ms is None,
            _ => true,
        }
        &&& !(self.phase is Stopped) ==> self.record.finished_unix_ms is None
    }

    /// Whether an event can come in the phase.
    pub open spec fn expects(self, event: StopEvent) -> bool {
        match self.phase {
            StopPhase::Stop { step, .. } => match step {
                StopStep::Finalize => event is Finalized,
                StopStep::Note => event is Noted,
                StopStep::Terminate => event is Terminated,
                StopStep::Sync => event is Synced,
                StopStep::Clean => event is Cleaned,
            },
            StopPhase::Persist => event is Persisted,
            _ => false,
        }
    }

    /// What to do in the phase.
    pub open spec fn action(self) -> StopAction {
        match self.phase {
            StopPhase::Stop { left, step } => match step {
                StopStep::Finalize => StopAction::Finalize { process: (left - 1) as usize },
                StopStep::Note => StopAction::Note { process: (left - 1) as usize },
                StopStep::Terminate => StopAction::Terminate { process: (left - 1) as usize },
                StopStep::Sync => StopAction::Sync { process: (left - 1) as usize },
                StopStep::Clean => StopAction::Clean { process: (left - 1) as usize },
            },
            StopPhase::Persist => StopAction::Persist,
            StopPhase::Stopped => StopAction::Stopped,
            StopPhase::Reported => StopAction::Report,
        }
    }

    /// The stop in another phase.
    pub open spec fn to(self, phase: StopPhase) -> ShutdownView {
        ShutdownView { phase, ..self }
    }

    /// The stop with other evidence of a process.
    pub open spec fn knowing(self, i: int, evidence: EvidenceView) -> ShutdownView {
        ShutdownView { record: self.record.with_evidence(i, evidence), ..self }
    }

    /// The stop after something that is not known to be gone: the first error counts.
    pub open spec fn doubt(self, error: Seq<char>) -> ShutdownView {
        ShutdownView {
            verified: false,
            first_error: match self.first_error {
                Some(first) => Some(first),
                None => Some(error),
            },
            ..self
        }
    }

    /// The stop after something that is known to be gone, or not.
    pub open spec fn doubt_unless(self, gone: bool, error: Seq<char>) -> ShutdownView {
        if gone {
            self
        } else {
            self.doubt(error)
        }
    }

    /// What follows once the profiler of a process was dealt with.
    pub open spec fn stop_process(self, left: usize) -> ShutdownView {
        self.to(
            StopPhase::Stop {
                left,
                step: if self.at(left - 1).handle is Some {
                    StopStep::Terminate
                } else {
                    StopStep::Note
                },
            },
        )
    }

    /// What follows when the first processes are left to stop.
    pub open spec fn leave(self, left: usize) -> ShutdownView {
        if left == 0 {
            self.to(StopPhase::Persist)
        } else if self.at(left - 1).profiler is Some {
            self.to(StopPhase::Stop { left, step: StopStep::Finalize })
        } else {
            self.stop_process(left)
        }
    }

    /// What follows once a process was stopped.
    pub open spec fn clean(self, left: usize) -> ShutdownView {
        if self.at(left - 1).profiler is Some {
            self.to(StopPhase::Stop { left, step: StopStep::Clean })
        } else {
            self.leave((left - 1) as usize)
        }
    }

    /// The stop after a step about a process.
    pub open spec fn stepped(self, left: usize, event: StopEvent) -> ShutdownView {
        let i = left - 1;
        let known = self.at(i);
        let name = debug_text(self.record.processes[i]);
        match event {
            StopEvent::Finalized { action } => self.knowing(
                i,
                EvidenceView { profiler_finalization: Some(action@), ..known },
            ).doubt_unless(
                action@.finalized(),
                action@.reason_or("failed to finalize profiler for process "@ + name),
            ).stop_process(left),
            StopEvent::Noted => {
                let message = "unfinished process "@ + name + " has no typed runtime handle"@;
                self.knowing(
                    i,
                    EvidenceView {
                        cleanup: known.cleanup.push(
                            unavailable_cleanup(CleanupTrigger::Recovery, message),
                        ),
                        ..known
                    },
                ).doubt(message).clean(left)
            },
            StopEvent::Terminated { cleanup } => self.knowing(
                i,
                EvidenceView { cleanup: known.cleanup.push(cleanup@), ..known },
            ).doubt_unless(
                cleanup@.verified,
                match cleanup@.error {
                    Some(error) => error,
                    None => "failed to stop process "@ + name,
                },
            ).to(StopPhase::Stop { left, step: StopStep::Sync }),
            StopEvent::Synced { error, elapsed_ms } => self.knowing(
                i,
                log_synced(known, text_of(error), elapsed_ms),
            ).clean(left),
            StopEvent::Cleaned { record } => {
                let cleaned = self.knowing(
                    i,
                    EvidenceView { profiler_cleanup: Some(record@), ..known },
                );
                if known.handle is Some {
                    cleaned.doubt_unless(
                        record@.verified,
                        match record@.error {
                            Some(error) => error,
                            None => "failed to clean profiler for process "@ + name,
                        },
                    ).leave((left - 1) as usize)
                } else {
                    ShutdownView {
                        verified: self.verified && record@.verified,
                        ..cleaned
                    }.leave((left - 1) as usize)
                }
            },
            _ => self,
        }
    }

    /// Whether the server is stored at the end of its stop: not where everything is
    /// known to be gone and there is no time at which it finished.
    pub open spec fn stored_at_end(self) -> bool {
        !self.verified || self.record.finished_unix_ms is Some
    }

    /// The stop at its end: the server is finished where everything is known to be
    /// gone, and left unfinished, with a failure, otherwise.
    pub open spec fn persisted(self, clock: Result<u64, Seq<char>>) -> ShutdownView {
        if self.verified {
            let status = if self.record.failure is Some {
                ServerStatus::Failed
            } else {
                ServerStatus::Stopped
            };
            let ended = RecordView { status, ..self.record };
            match clock {
                Ok(millis) => ShutdownView {
                    record: RecordView { finished_unix_ms: Some(millis), ..ended },
                    ..self
                }.to(StopPhase::Stopped),
                Err(error) => ShutdownView {
                    record: ended,
                    message: "system clock is before Unix epoch: "@ + error,
                    ..self
                }.to(StopPhase::Reported),
            }
        } else {
            let message = match self.first_error {
                Some(text) => text,
                None => "server cleanup was not verified"@,
            };
            ShutdownView {
                record: RecordView {
                    status: ServerStatus::Failed,
                    finished_unix_ms: None,
                    failure: match self.record.failure {
                        Some(failure) => Some(failure),
                        None => Some(
                            FailureView {
                                phase: FailurePhase::Recovery,
                                process_id: None,
                                message,
                            },
                        ),
                    },
                    ..self.record
                },
                message: message + "; record "@ + self.record.id,
                ..self
            }.to(StopPhase::Reported)
        }
    }

    /// The stop after an event.
    pub open spec fn next(self, event: StopEvent) -> ShutdownView {
        match self.phase {
            StopPhase::Stop { left, .. } => self.stepped(left, event),
            StopPhase::Persist => match event {
                StopEvent::Persisted { clock } => self.persisted(result_of(clock)),
                _ => self,
            },
            _ => self,
        }
    }
}

/// The stop of a server that is not finished, before its first step.
pub open spec fn stop_of(record: RecordView) -> ShutdownView {
    (ShutdownView {
        record,
        phase: StopPhase::Persist,
        verified: true,
        first_error: None,
        message: Seq::empty(),
    }).leave(record.processes.len() as usize)
}

/// What a request to stop a server comes to: a stop of one that is not finished,
/// and the record of a finished one as it is.
pub open spec fn stopping(record: RecordView) -> Result<ShutdownView, RecordView> {
    if record.finished_unix_ms is None {
        Ok(stop_of(record))
    } else {
        Err(record)
    }
}

/// Begins to stop a server. A finished one is given back as it is: nothing is done
/// about it.
pub fn begin_stop(record: ServerRecord) -> (r: Result<Shutdown, ServerRecord>)
    requires
        record@.wf(),
    ensures
        match stopping(record@) {
            Ok(stop) => r matches Ok(found) && found@ == stop && found@.wf(),
            Err(_) => r == Err::<Shutdown, ServerRecord>(record),
        },
{
    if record.finished_unix_ms.is_some() {
        Err(record)
    } else {
        Ok(Shutdown::new(record))
    }
}

impl Shutdown {
    /// A stop of a server that is not finished.
    pub fn new(record: ServerRecord) -> (r: Shutdown)
        requires
            record@.wf(),
            record@.finished_unix_ms is None,
        ensures
            r@.wf(),
            r@ == stop_of(record@),
    {
        let left: usize = record.processes.len();
        assert(texts(record.processes@).len() == left);
        let message = String::new();
        assert(message@ =~= Seq::empty());
        let mut stop = Shutdown {
            record,
            phase: StopPhase::Persist,
            verified: true,
            first_error: None,
            message,
        };
        stop.leave(left);
        stop
    }

    /// What to do next.
    pub fn action(&self) -> (r: StopAction)
        requires
            self@.wf(),
        ensures
            r == self@.action(),
    {
        match self.phase {
            StopPhase::Stop { left, step } => match step {
                StopStep::Finalize => StopAction::Finalize { process: left - 1 },
                StopStep::Note => StopAction::Note { process: left - 1 },
                StopStep::Terminate => StopAction::Terminate { process: left - 1 },
                StopStep::Sync => StopAction::Sync { process: left - 1 },
                StopStep::Clean => StopAction::Clean { process: left - 1 },
            },
            StopPhase::Persist => StopAction::Persist,
            StopPhase::Stopped => StopAction::Stopped,
            StopPhase::Reported => StopAction::Report,
        }
    }

    /// Whether the server is stored at the end of its stop.
    pub fn stores_at_end(&self) -> (r: bool)
        ensures
            r == self@.stored_at_end(),
    {
        !self.verified || self.record.finished_unix_ms.is_some()
    }

    fn stop_process(&mut self, left: usize)
        requires
            0 < left <= old(self).record.process_evidence@.len(),
        ensures
            final(self)@ == old(self)@.stop_process(left),
    {
        assert(self@.at(left - 1) == self.record.process_evidence@[left - 1]@);
        if self.record.process_evidence[left - 1].handle.is_some() {
            self.phase = StopPhase::Stop { left, step: StopStep::Terminate };
        } else {
            self.phase = StopPhase::Stop { left, step: StopStep::Note };
        }
    }

    fn leave(&mut self, left: usize)
        requires
            left <= old(self).record.process_evidence@.len(),
        ensures
            final(self)@ == old(self)@.leave(left),
    {
        if left == 0 {
            self.phase = StopPhase::Persist;
            return;
        }
        assert(self@.at(left - 1) == self.record.process_evidence@[left - 1]@);
        if self.record.process_evidence[left - 1].profiler.is_some() {
            self.phase = StopPhase::Stop { left, step: StopStep::Finalize };
        } else {
            self.stop_process(left);
        }
    }

    fn clean(&mut self, left: usize)
        requires
            0 < left <= old(self).record.process_evidence@.len(),
        ensures
            final(self)@ == old(self)@.clean(left),
    {
        assert(self@.at(left - 1) == self.record.process_evidence@[left - 1]@);
        if self.record.process_evidence[left - 1].profiler.is_some() {
            self.phase = StopPhase::Stop { left, step: StopStep::Clean };
        } else {
            self.leave(left - 1);
        }
    }

    fn doubt(&mut self, error: String)
        ensures
            final(self)@ == old(self)@.doubt(error@),
            final(self).record == old(self).record,
    {
        self.verified = false;
        if self.first_error.is_none() {
            self.first_error = Some(error);
        }
    }

    fn take_step(&mut self, left: usize, event: StopEvent)
        requires
            old(self)@.wf(),
            old(self)@.phase matches StopPhase::Stop { left: at, .. } && at == left,
            old(self)@.expects(event),
        ensures
            final(self)@ == old(self)@.stepped(left, event),
    {
        let ghost start = self@;
        let i: usize = left - 1;
        let ghost before = self.record.process_evidence@;
        assert(start.at(i as int) == before[i as int]@);
        assert(texts(self.record.processes@)[i as int] == self.record.processes@[i as int]@);
        let name = debug(self.record.processes[i].as_str());
        match event {
            StopEvent::Finalized { action } => {
                let ended: bool = finalization_succeeded(&action);
                let error = match action.error() {
                    Some(text) => text,
                    None => cat2("failed to finalize profiler for process ", name.as_str()),
                };
                self.record.process_evidence[i].profiler_finalization = Some(action);
                proof {
                    lemma_views_update(before, self.record.process_evidence@, i as int);
                }
                if !ended {
                    self.doubt(error);
                }
                self.stop_process(left);
            },
            StopEvent::Noted => {
                let message = cat3(
                    "unfinished process ",
                    name.as_str(),
                    " has no typed runtime handle",
                );
                let cleanup = CleanupEvidence::unavailable(
                    CleanupTrigger::Recovery,
                    message.clone(),
                );
                push_cleanup(&mut self.record.process_evidence[i], cleanup);
                proof {
                    lemma_views_update(before, self.record.process_evidence@, i as int);
                }
                self.doubt(message);
                self.clean(left);
            },
            StopEvent::Terminated { cleanup } => {
                let gone: bool = cleanup.verified;
                let error = match &cleanup.error {
                    Some(text) => text.clone(),
                    None => cat2("failed to stop process ", name.as_str()),
                };
                push_cleanup(&mut self.record.process_evidence[i], cleanup);
                proof {
                    lemma_views_update(before, self.record.process_evidence@, i as int);
                }
                if !gone {
                    self.doubt(error);
                }
                self.phase = StopPhase::Stop { left, step: StopStep::Sync };
            },
            StopEvent::Synced { error, elapsed_ms } => {
                sync_logs_for_process(&mut self.record.process_evidence[i], error, elapsed_ms);
                proof {
                    lemma_views_update(before, self.record.process_evidence@, i as int);
                }
                self.clean(left);
            },
            StopEvent::Cleaned { record } => {
                let gone: bool = record.verified;
                let error = match &record.error {
                    Some(text) => text.clone(),
                    None => cat2("failed to clean profiler for process ", name.as_str()),
                };
                let handled: bool = self.record.process_evidence[i].handle.is_some();
                self.record.process_evidence[i].profiler_cleanup = Some(record);
                proof {
                    lemma_views_update(before, self.record.process_evidence@, i as int);
                }
                if handled {
                    if !gone {
                        self.doubt(error);
                    }
                } else {
                    self.verified = self.verified && gone;
                }
                self.leave(i);
            },
            _ => {},
        }
    }

    fn take_persisted(&mut self, clock: Result<u64, String>)
        ensures
            final(self)@ == old(self)@.persisted(result_of(clock)),
    {
        if self.verified {
            self.record.status = if self.record.failure.is_some() {
                ServerStatus::Failed
            } else {
                ServerStatus::Stopped
            };
            match clock {
                Ok(millis) => {
                    self.record.finished_unix_ms = Some(millis);
                    self.phase = StopPhase::Stopped;
                },
                Err(error) => {
                    self.message = cat2("system clock is before Unix epoch: ", error.as_str());
                    self.phase = StopPhase::Reported;
                },
            }
            return;
        }
        let message = match &self.first_error {
            Some(text) => text.clone(),
            None => "server cleanup was not verified".to_owned(),
        };
        self.message = cat3(message.as_str(), "; record ", self.record.id.as_str());
        if self.record.failure.is_none() {
            self.record.failure = Some(
                FailureEvidence { phase: FailurePhase::Recovery, process_id: None, message },
            );
        }
        self.record.status = ServerStatus::Failed;
        self.record.finished_unix_ms = None;
        self.phase = StopPhase::Reported;
    }

    /// The stop stays in order through every step.
    proof fn lemma_next_is_wf(before: ShutdownView, event: StopEvent)
        requires
            before.wf(),
            before.expects(event),
        ensures
            before.next(event).wf(),
    {
        let after = before.next(event);
        assert forall|i: int| after.stopped_from() <= i < after.count() implies (
        #[trigger] after.at(i)).cleanup.len() > 0 && (after.verified ==> after.at(i).handle is Some
            && after.at(i).cleanup.last().verified) by {
            if before.stopped_from() <= i {
                assert(before.at(i).cleanup.len() > 0);
            }
        }
    }

    /// One step of stopping a server: what came of the step before, and what to do
    /// next. The processes are stopped in the reverse of their order, each whatever
    /// came of those before it.
    pub fn stop_with_runtime(&mut self, event: StopEvent) -> (r: StopAction)
        requires
            old(self)@.wf(),
            old(self)@.expects(event),
        ensures
            final(self)@.wf(),
            final(self)@ == old(self)@.next(event),
            r == final(self)@.action(),
    {
        proof {
            Shutdown::lemma_next_is_wf(self@, event);
        }
        match self.phase {
            StopPhase::Stop { left, .. } => {
                self.take_step(left, event);
            },
            _ => match event {
                StopEvent::Persisted { clock } => {
                    self.take_persisted(clock);
                },
                _ => {},
            },
        }
        self.action()
    }
}

// ---------------------------------------------------------------------------
// Status

/// What is told of a process of a server.
#[derive(Debug)]
pub struct ServerProcessStatusReport {
    pub id: String,
    pub observed_alive: bool,
    pub process_status: Option<ProcessStatus>,
}

/// What is told of a process of a server, as values.
pub struct ProcessReportView {
    pub id: Seq<char>,
    pub observed_alive: bool,
    pub process_status: Option<StatusView>,
}

impl View for ServerProcessStatusReport {
    type V = ProcessReportView;

    open spec fn view(&self) -> ProcessReportView {
        ProcessReportView {
            id: self.id@,
            observed_alive: self.observed_alive,
            process_status: view_of(self.process_status),
        }
    }
}

/// What is told of a server.
#[derive(Debug)]
pub struct ServerStatusReport {
    pub record: ServerRecord,
    pub observed_alive: bool,
    pub processes: Vec<ServerProcessStatusReport>,
}

/// Whether a process of a record is looked at: one with a handle, in a server that
/// is not finished.
pub open spec fn looked_at(record: RecordView, i: int) -> bool {
    record.finished_unix_ms is None && record.process_evidence[i].handle is Some
}

/// Whether a process of a record is looked at.
pub fn needs_status(record: &ServerRecord, process: usize) -> (r: bool)
    requires
        record@.wf(),
        process < record@.processes.len(),
    ensures
        r == looked_at(record@, process as int),
{
    assert(record@.process_evidence[process as int] == record.process_evidence@[process as int]@);
    record.finished_unix_ms.is_none() && record.process_evidence[process].handle.is_some()
}

/// Whether a status is that of a live process.
pub open spec fn lives(status: Option<ProcessStatus>) -> bool {
    status is Some && status->0.alive
}

/// Whether every process of a server is seen alive; a server without processes is not.
pub open spec fn seen_alive(record: RecordView, statuses: Seq<Option<ProcessStatus>>) -> bool {
    record.processes.len() > 0 && forall|i: int|
        0 <= i < statuses.len() ==> lives(#[trigger] statuses[i])
}

/// What is told of a process, from a look at it.
pub open spec fn process_told(record: RecordView, i: int, status: Option<ProcessStatus>) -> ProcessReportView {
    ProcessReportView {
        id: record.processes[i],
        observed_alive: lives(status),
        process_status: view_of(status),
    }
}

/// Whether the looks are those at the processes that are looked at.
pub open spec fn looks_fit(record: RecordView, statuses: Seq<Option<ProcessStatus>>) -> bool {
    statuses.len() == record.processes.len() && forall|i: int|
        0 <= i < statuses.len() ==> ((#[trigger] statuses[i]) is Some <==> looked_at(record, i))
}

/// Tells how a server stands, from a look at each process that is looked at. It is
/// observed alive where it has processes and each of them was seen alive.
pub fn status_with_runtime(record: ServerRecord, statuses: Vec<Option<ProcessStatus>>) -> (r:
    ServerStatusReport)
    requires
        record@.wf(),
        looks_fit(record@, statuses@),
    ensures
        r.record == record,
        views_of(r.processes@) == Seq::new(
            record@.processes.len(),
            |i: int| process_told(record@, i, statuses@[i]),
        ),
        r.observed_alive == seen_alive(record@, statuses@),
{
    let ghost all = Seq::new(
        record@.processes.len(),
        |i: int| process_told(record@, i, statuses@[i]),
    );
    let count: usize = record.processes.len();
    assert(texts(record.processes@).len() == count);
    let mut rest = statuses;
    let mut processes: Vec<ServerProcessStatusReport> = Vec::new();
    let mut every: bool = true;
    let mut i: usize = 0;
    assert(views_of(processes@) =~= all.take(0));
    assert(rest@ =~= statuses@.skip(0));
    while i < count
        invariant
            i <= count,
            count == record@.processes.len(),
            statuses@.len() == count,
            rest@ == statuses@.skip(i as int),
            all == Seq::new(
                record@.processes.len(),
                |i: int| process_told(record@, i, statuses@[i]),
            ),
            views_of(processes@) == all.take(i as int),
            every == forall|j: int| 0 <= j < i ==> lives(#[trigger] statuses@[j]),
        decreases count - i,
    {
        let ghost before = processes@;
        let status: Option<ProcessStatus> = rest.remove(0);
        assert(status == statuses@[i as int]);
        assert(rest@ =~= statuses@.skip(i + 1));
        let observed_alive: bool = match &status {
            Some(found) => found.alive,
            None => false,
        };
        if !observed_alive {
            every = false;
        }
        assert(texts(record.processes@)[i as int] == record.processes@[i as int]@);
        let report = ServerProcessStatusReport {
            id: record.processes[i].clone(),
            observed_alive,
            process_status: status,
        };
        processes.push(report);
        proof {
            assert(views_of(processes@) =~= views_of(before).push(report@));
            assert(all.take(i + 1) =~= all.take(i as int).push(all[i as int]));
        }
        i += 1;
    }
    assert(all.take(i as int) =~= all);
    ServerStatusReport { record, observed_alive: count > 0 && every, processes }
}

/// Why a server cannot be used.
pub open spec fn not_running(id: Seq<char>, status: ServerStatus, observed_alive: bool) -> Option<
    Seq<char>,
> {
    if status != ServerStatus::Running {
        Some(
            "server record "@ + debug_text(id) + " is "@ + status.shown() + ", not running"@,
        )
    } else if !observed_alive {
        Some(
            "not every process in running server record "@ + debug_text(id)
                + " is observed alive"@,
        )
    } else {
        None
    }
}

/// Refuses a server that is not running with all its processes alive.
pub fn require_running(report: &ServerStatusReport) -> (r: Result<(), InferlabError>)
    ensures
        match not_running(report.record.id@, report.record.status, report.observed_alive) {
            Some(text) => refuses_lifecycle(r, text),
            None => r is Ok,
        },
{
    if report.record.status != ServerStatus::Running {
        return lifecycle_error(
            cat5(
                "server record ",
                debug(report.record.id.as_str()).as_str(),
                " is ",
                report.record.status.show(),
                ", not running",
            ),
        );
    }
    if !report.observed_alive {
        return lifecycle_error(
            cat3(
                "not every process in running server record ",
                debug(report.record.id.as_str()).as_str(),
                " is observed alive",
            ),
        );
    }
    Ok(())
}

// ---------------------------------------------------------------------------
// Logs

/// Where the logs of a process are.
#[derive(Debug)]
pub struct ServerProcessLogsReport {
    pub id: String,
    pub stdout: String,
    pub stderr: String,
}

/// Where the logs of a process are, as values.
pub struct LogsView {
    pub id: Seq<char>,
    pub stdout: Seq<char>,
    pub stderr: Seq<char>,
}

impl View for ServerProcessLogsReport {
    type V = LogsView;

    open spec fn view(&self) -> LogsView {
        LogsView { id: self.id@, stdout: self.stdout@, stderr: self.stderr@ }
    }
}

/// Where the logs of a server are.
#[derive(Debug)]
pub struct ServerLogsReport {
    pub id: String,
    pub record_dir: String,
    pub processes: Vec<ServerProcessLogsReport>,
}

/// Where the logs of a process are.
pub open spec fn logs_of(root: Seq<char>, record: RecordView, i: int) -> LogsView {
    LogsView {
        id: record.processes[i],
        stdout: joined_path(root, record.process_evidence[i].stdout),
        stderr: joined_path(root, record.process_evidence[i].stderr),
    }
}

/// Why the logs of the first processes could not be fetched.
pub open spec fn log_fault(record: RecordView, fetched: Seq<Result<(), String>>) -> spec_fn(int) -> Option<
    Seq<char>,
> {
    |i: int|
        if !looked_at(record, i) {
            None
        } else {
            match fetched[i] {
                Ok(()) => None,
                Err(error) => Some(
                    "failed to synchronize logs for process "@ + debug_text(record.processes[i])
                        + ": "@ + error@ + "; record "@ + record.id,
                ),
            }
        }
}

/// Tells where the logs of a server are, once they were fetched for each process
/// that is looked at; the first that could not be fetched ends it.
pub fn logs_with_runtime(root: &str, record: &ServerRecord, fetched: &[Result<(), String>]) -> (r:
    Result<ServerLogsReport, InferlabError>)
    requires
        record@.wf(),
        fetched@.len() == record@.processes.len(),
    ensures
        match crate::search::first_some(fetched@.len(), log_fault(record@, fetched@)) {
            Some(text) => refuses_lifecycle(r, text),
            None => r matches Ok(report) && report.id@ == record@.id && report.record_dir@
                == joined_path(joined_path(root@, RECORDS_DIR@), record@.id) && views_of(
                report.processes@,
            ) == Seq::new(record@.processes.len(), |i: int| logs_of(root@, record@, i)),
        },
{
    let ghost fault = log_fault(record@, fetched@);
    let ghost all = Seq::new(record@.processes.len(), |i: int| logs_of(root@, record@, i));
    let count: usize = record.processes.len();
    assert(texts(record.processes@).len() == count);
    let mut processes: Vec<ServerProcessLogsReport> = Vec::new();
    let mut i: usize = 0;
    assert(views_of(processes@) =~= all.take(0));
    while i < count
        invariant
            i <= count,
            record@.wf(),
            count == record@.processes.len(),
            count == record.processes@.len(),
            fetched@.len() == count,
            fault == log_fault(record@, fetched@),
            all == Seq::new(record@.processes.len(), |i: int| logs_of(root@, record@, i)),
            crate::search::first_some(i as nat, fault) is None,
            views_of(processes@) == all.take(i as int),
        decreases count - i,
    {
        let ghost before = processes@;
        assert(texts(record.processes@)[i as int] == record.processes@[i as int]@);
        assert(record@.process_evidence[i as int] == record.process_evidence@[i as int]@);
        let id = record.processes[i].clone();
        if needs_status(record, i) {
            if let Err(error) = &fetched[i] {
                proof {
                    assert(fault(i as int) is Some);
                    crate::search::lemma_first_some_stays((i + 1) as nat, fetched@.len(), fault);
                }
                return lifecycle_error(
                    cat6(
                        "failed to synchronize logs for process ",
                        debug(id.as_str()).as_str(),
                        ": ",
                        error.as_str(),
                        "; record ",
                        record.id.as_str(),
                    ),
                );
            }
        }
        assert(fault(i as int) is None);
        let report = ServerProcessLogsReport {
            id,
            stdout: join_path(root, record.process_evidence[i].stdout.as_str()),
            stderr: join_path(root, record.process_evidence[i].stderr.as_str()),
        };
        processes.push(report);
        proof {
            assert(views_of(processes@) =~= views_of(before).push(report@));
            assert(all.take(i + 1) =~= all.take(i as int).push(all[i as int]));
        }
        i += 1;
    }
    assert(all.take(i as int) =~= all);
    Ok(
        ServerLogsReport {
            id: record.id.clone(),
            record_dir: join_path(join_path(root, RECORDS_DIR).as_str(), record.id.as_str()),
            processes,
        },
    )
}

// ---------------------------------------------------------------------------
// Operations

/// What came of taking the lock of a server.
#[derive(Debug)]
pub enum LockOutcome {
    Taken,
    /// Another operation holds it.
    Held,
    Failed { error: String },
}

/// Where the lock of a server is.
pub fn operation_lock_path(root: &str, id: &str) -> (r: String)
    ensures
        r@ == joined_path(joined_path(joined_path(root@, RECORDS_DIR@), id@), "operation.lock"@),
{
    let records = join_path(root, RECORDS_DIR);
    join_path(join_path(records.as_str(), id).as_str(), "operation.lock")
}

/// Takes the lock of a server: one that is held refuses the operation.
pub fn acquire_operation(id: &str, path: &str, outcome: &LockOutcome) -> (r: Result<(), InferlabError>)
    ensures
        match *outcome {
            LockOutcome::Taken => r is Ok,
            LockOutcome::Held => r matches Err(InferlabError::ServerBusy { id: found }) && found@
                == id@,
            LockOutcome::Failed { error } => r matches Err(
                InferlabError::RecordIo { path: at, message },
            ) && at@ == path@ && message@ == error@,
        },
{
    match outcome {
        LockOutcome::Taken => Ok(()),
        LockOutcome::Held => Err(InferlabError::ServerBusy { id: id.to_owned() }),
        LockOutcome::Failed { error } => Err(
            InferlabError::RecordIo { path: path.to_owned(), message: error.clone() },
        ),
    }
}

// ---------------------------------------------------------------------------
// Laws

/// A server is only told stopped where every process had a handle and its last
/// cleanup saw it gone.
pub proof fn law_stopped_server_left_nothing_running(stop: ShutdownView, i: int)
    requires
        stop.wf(),
        stop.phase is Stopped,
        0 <= i < stop.count(),
    ensures
        stop.at(i).handle is Some,
        stop.at(i).cleanup.last().verified,
        stop.record.finished_unix_ms is Some,
{
    assert(stop.at(i).cleanup.len() > 0);
}

/// A stop that is not certain leaves the server unfinished, so that it can be stopped
/// again.
pub proof fn law_uncertain_stop_leaves_the_server_unfinished(
    stop: ShutdownView,
    clock: Result<u64, Seq<char>>,
)
    requires
        stop.wf(),
        !stop.verified,
    ensures
        stop.persisted(clock).record.finished_unix_ms is None,
        stop.persisted(clock).record.status == ServerStatus::Failed,
        stop.persisted(clock).record.failure is Some,
        stop.persisted(clock).phase is Reported,
{
}

/// A server is stored at the end of its stop unless it cannot be finished for want
/// of a clock.
pub proof fn law_stop_is_stored(stop: ShutdownView, clock: Result<u64, Seq<char>>)
    requires
        stop.wf(),
        stop.phase is Persist,
    ensures
        stop.persisted(clock).stored_at_end() <==> !stop.verified || clock is Ok,
{
}

/// The processes are stopped the last one first, and what came of one never keeps
/// those before it from being stopped.
pub proof fn law_stopped_in_reverse_order(stop: ShutdownView, event: StopEvent)
    requires
        stop.wf(),
        stop.expects(event),
        stop.phase is Stop,
    ensures
        match stop.next(event).phase {
            StopPhase::Stop { left, .. } => left == stop.phase->left || left + 1
                == stop.phase->left,
            StopPhase::Persist => stop.phase->left == 1,
            _ => false,
        },
{
}

/// A server that failed before it was stopped stays failed.
pub proof fn law_failed_server_stays_failed(stop: ShutdownView, clock: Result<u64, Seq<char>>)
    requires
        stop.wf(),
        stop.record.failure is Some,
    ensures
        stop.persisted(clock).record.status == ServerStatus::Failed,
        stop.persisted(clock).record.failure == stop.record.failure,
{
}

/// A finished server has no process that is observed alive.
pub proof fn law_finished_server_is_not_observed(
    record: RecordView,
    statuses: Seq<Option<ProcessStatus>>,
    i: int,
)
    requires
        looks_fit(record, statuses),
        record.finished_unix_ms is Some,
        0 <= i < statuses.len(),
    ensures
        !lives(statuses[i]),
{
    assert(!looked_at(record, i));
}

/// A server that was stopped stays as it is: stopping it again does nothing and
/// gives its record back unchanged.
pub proof fn law_stopping_twice_is_stopping_once(stop: ShutdownView)
    requires
        stop.wf(),
        stop.action() is Stopped,
    ensures
        stop.record.finished_unix_ms is Some,
        stopping(stop.record) == Err::<ShutdownView, RecordView>(stop.record),
{
}

/// Nothing is done to stop a finished server: there is no step of a stop, only its
/// record as it is.
pub proof fn law_finished_server_is_not_stopped(record: RecordView)
    requires
        record.finished_unix_ms is Some,
    ensures
        stopping(record) == Err::<ShutdownView, RecordView>(record),
{
}

/// A step of a stop is about one process: what it came to is added to the evidence of
/// that process, and that of every other one stays as it is. Whatever is not known to be
/// gone leaves the stop in doubt, and nothing takes that back.
pub proof fn law_step_is_recorded_for_its_process(stop: ShutdownView, event: StopEvent, j: int)
    requires
        stop.wf(),
        stop.expects(event),
        stop.phase is Stop,
        0 <= j < stop.count(),
    ensures
        ({
            let i = stop.phase->left - 1;
            let next = stop.next(event);
            &&& next.record.processes == stop.record.processes
            &&& next.record.id == stop.record.id
            &&& next.record.failure == stop.record.failure
            &&& j != i ==> next.at(j) == stop.at(j)
            &&& next.at(i).handle == stop.at(i).handle
            &&& next.at(i).profiler == stop.at(i).profiler
            &&& next.verified ==> stop.verified
            &&& (event matches StopEvent::Finalized { action } ==> next.at(i).profiler_finalization
                == Some(action@) && next.at(i).cleanup == stop.at(i).cleanup && next.verified == (
            stop.verified && action@.finalized()))
            &&& (event matches StopEvent::Terminated { cleanup } ==> next.at(i).cleanup
                == stop.at(i).cleanup.push(cleanup@) && next.verified == (stop.verified
                && cleanup@.verified))
            &&& event is Noted ==> next.at(i).cleanup.len() == stop.at(i).cleanup.len() + 1
                && !next.at(i).cleanup.last().verified && !next.verified
            &&& event is Synced ==> next.at(i).cleanup == stop.at(i).cleanup && next.verified
                == stop.verified
            &&& (event matches StopEvent::Cleaned { record } ==> next.at(i).profiler_cleanup == Some(
                record@,
            ) && next.at(i).cleanup == stop.at(i).cleanup && next.verified == (stop.verified
                && record@.verified))
        }),
{
}

/// A process is stopped step by step: its profiler is ended before it, its logs are
/// fetched after it, and what is left of its profiler is cleared away last. A process
/// without a profiler skips the steps about it.
pub proof fn law_process_is_stopped_step_by_step(stop: ShutdownView, event: StopEvent)
    requires
        stop.wf(),
        stop.expects(event),
        stop.phase is Stop,
    ensures
        ({
            let process = (stop.phase->left - 1) as usize;
            let known = stop.at(process as int);
            let then = stop.next(event).action();
            &&& event is Finalized && known.handle is Some ==> then == (StopAction::Terminate {
                process,
            })
            &&& event is Finalized && known.handle is None ==> then == (StopAction::Note { process })
            &&& event is Terminated ==> then == (StopAction::Sync { process })
            &&& (event is Synced || event is Noted) && known.profiler is Some ==> then == (
            StopAction::Clean { process })
            &&& event is Cleaned || ((event is Synced || event is Noted) && known.profiler is None)
                ==> if process == 0 {
                then == StopAction::Persist
            } else {
                let before = stop.at(process - 1);
                let earlier = (process - 1) as usize;
                if before.profiler is Some {
                    then == (StopAction::Finalize { process: earlier })
                } else if before.handle is Some {
                    then == (StopAction::Terminate { process: earlier })
                } else {
                    then == (StopAction::Note { process: earlier })
                }
            }
        }),
{
}

/// The first error of a stop is the one that is told.
pub proof fn law_first_error_of_a_stop_is_told(stop: ShutdownView, first: Seq<char>, second: Seq<char>)
    requires
        stop.first_error is None,
    ensures
        stop.doubt(first).first_error == Some(first),
        stop.doubt(first).doubt(second).first_error == Some(first),
        !stop.doubt(first).verified,
        stop.record.failure is None ==> (stop.doubt(first).doubt(second).persisted(
            Err(Seq::empty()),
        ).record.failure matches Some(failure) && failure.message == first && failure.phase
            == FailurePhase::Recovery),
{
}

/// A server that is known to be gone is finished at the time that the clock tells: it is
/// stopped, or failed where it had failed before.
pub proof fn law_certain_stop_finishes_the_server(stop: ShutdownView, millis: u64)
    requires
        stop.wf(),
        stop.phase is Persist,
        stop.verified,
    ensures
        stop.persisted(Ok(millis)).record.finished_unix_ms == Some(millis),
        stop.record.failure is None ==> stop.persisted(Ok(millis)).record.status
            == ServerStatus::Stopped,
        stop.record.failure is Some ==> stop.persisted(Ok(millis)).record.status
            == ServerStatus::Failed,
        stop.persisted(Ok(millis)).record.process_evidence == stop.record.process_evidence,
        stop.persisted(Ok(millis)).action() == StopAction::Stopped,
{
}

/// The stop of a server begins with its last process.
pub proof fn law_stop_begins_with_the_last_process(record: RecordView)
    requires
        record.wf(),
        0 < record.processes.len() <= usize::MAX,
        record.finished_unix_ms is None,
    ensures
        stopping(record) matches Ok(stop) && stop.record == record && stop.verified && {
            let process = (record.processes.len() - 1) as usize;
            let known = record.process_evidence[process as int];
            if known.profiler is Some {
                stop.action() == (StopAction::Finalize { process })
            } else if known.handle is Some {
                stop.action() == (StopAction::Terminate { process })
            } else {
                stop.action() == (StopAction::Note { process })
            }
        },
{
}

/// A server can be used exactly where it is running and every process of it is seen
/// alive; a process is told under its own id.
pub proof fn law_usable_server_runs_and_lives(
    record: RecordView,
    observed_alive: bool,
    i: int,
    status: Option<ProcessStatus>,
)
    ensures
        not_running(record.id, record.status, observed_alive) is None <==> record.status
            == ServerStatus::Running && observed_alive,
        process_told(record, i, status).id == record.processes[i],
        process_told(record, i, status).observed_alive <==> (status matches Some(told) && told.alive),
{
}

/// The logs of a process are its own, below the root that is asked for.
pub proof fn law_logs_are_those_of_the_process(root: Seq<char>, record: RecordView, i: int)
    ensures
        logs_of(root, record, i).id == record.processes[i],
        logs_of(root, record, i).stdout == joined_path(root, record.process_evidence[i].stdout),
        logs_of(root, record, i).stderr == joined_path(root, record.process_evidence[i].stderr),
{
}

/// A server is seen alive exactly where it has processes and each of them was seen alive:
/// one that was not looked at, or not seen alive, is enough against it.
pub proof fn law_server_lives_with_every_process(
    record: RecordView,
    statuses: Seq<Option<ProcessStatus>>,
    i: int,
)
    requires
        looks_fit(record, statuses),
        0 <= i < statuses.len(),
    ensures
        seen_alive(record, statuses) ==> (statuses[i] matches Some(told) && told.alive)
            && record.process_evidence[i].handle is Some && record.finished_unix_ms is None,
        (forall|j: int|
            0 <= j < statuses.len() ==> ((#[trigger] statuses[j]) matches Some(told) && told.alive))
            ==> seen_alive(record, statuses),
{
    if forall|j: int|
        0 <= j < statuses.len() ==> ((#[trigger] statuses[j]) matches Some(told) && told.alive) {
        assert forall|j: int| 0 <= j < statuses.len() implies lives(#[trigger] statuses[j]) by {
        }
    }
    if seen_alive(record, statuses) {
        assert(lives(statuses[i]));
        assert(looked_at(record, i));
    }
}

/// The logs of a process are missed only where the process was started, in a server that is
/// not finished, and they could not be fetched.
pub proof fn law_logs_are_missed_where_they_were_looked_for(
    record: RecordView,
    fetched: Seq<Result<(), String>>,
    i: int,
)
    ensures
        log_fault(record, fetched)(i) is Some <==> record.finished_unix_ms is None
            && record.process_evidence[i].handle is Some && fetched[i] is Err,
{
}

} // verus!
