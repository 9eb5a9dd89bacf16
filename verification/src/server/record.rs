//! Server records: what is kept of a server from its start to its end.

use crate::error::InferlabError;
use crate::paths::{join_path, joined_path};
use crate::profiler::agent::{AgentView, ProfilerCleanupRecord};
use crate::profiler::capture::{ActionView, CaptureActionRecord};
use crate::profiler::target::ProfilerTargetRecord;
use crate::record::{
    identified, lifecycle_error, refuses_lifecycle, valid_id, validate_record_id, RecordIdentity,
    RECORDS_DIR,
};
use crate::server::checks::EnvironmentCheckEvidence;
use crate::server::cleanup::{CleanupEvidence, CleanupView};
use crate::server::handle::ProcessHandle;
use crate::server::hardware::MachineHardwareEvidence;
use crate::server::readiness::{
    ReadinessEvidence, ReadinessFailure, ReadinessView, UnreadyView,
};
use crate::text::{
    cat2, cat3, cat4, cat5, copy_list, debug, debug_text, list_contains, lists, same, text_of, texts,
};
use crate::time_bound::{OperationTimingEvidence, TimingView};
use vstd::prelude::*;
use vstd::string::*;

verus! {

/// The version of the record's form.
pub const SCHEMA_VERSION: u32 = 3;

/// How a server stands.
#[derive(Clone, Copy, Debug, PartialEq, Eq, Structural)]
pub enum ServerStatus {
    Starting,
    Running,
    Stopped,
    Failed,
}

impl ServerStatus {
    /// The name of the state.
    pub open spec fn name(self) -> Seq<char> {
        match self {
            ServerStatus::Starting => "starting"@,
            ServerStatus::Running => "running"@,
            ServerStatus::Stopped => "stopped"@,
            ServerStatus::Failed => "failed"@,
        }
    }

    /// The name of the state.
    pub fn as_str(self) -> (r: &'static str)
        ensures
            r@ == self.name(),
    {
        match self {
            ServerStatus::Starting => "starting",
            ServerStatus::Running => "running",
            ServerStatus::Stopped => "stopped",
            ServerStatus::Failed => "failed",
        }
    }

    /// The state as it is shown.
    pub open spec fn shown(self) -> Seq<char> {
        match self {
            ServerStatus::Starting => "Starting"@,
            ServerStatus::Running => "Running"@,
            ServerStatus::Stopped => "Stopped"@,
            ServerStatus::Failed => "Failed"@,
        }
    }

    /// The state as it is shown.
    pub fn show(self) -> (r: &'static str)
        ensures
            r@ == self.shown(),
    {
        match self {
            ServerStatus::Starting => "Starting",
            ServerStatus::Running => "Running",
            ServerStatus::Stopped => "Stopped",
            ServerStatus::Failed => "Failed",
        }
    }
}

/// What a server was doing when it failed.
#[derive(Clone, Copy, Debug, PartialEq, Eq, Structural)]
pub enum FailurePhase {
    /// A check or a probe before any process was launched.
    Preflight,
    Launch,
    Record,
    Readiness,
    Interrupted,
    Recovery,
}

/// Why a server failed.
#[derive(Debug)]
pub struct FailureEvidence {
    pub phase: FailurePhase,
    pub process_id: Option<String>,
    pub message: String,
}

/// Why a server failed, as values.
pub struct FailureView {
    pub phase: FailurePhase,
    pub process_id: Option<Seq<char>>,
    pub message: Seq<char>,
}

impl View for FailureEvidence {
    type V = FailureView;

    open spec fn view(&self) -> FailureView {
        FailureView {
            phase: self.phase,
            process_id: text_of(self.process_id),
            message: self.message@,
        }
    }
}

/// What came of fetching the logs of a process.
#[derive(Debug)]
pub struct LogSyncEvidence {
    pub elapsed_ms: u64,
    pub deadline_ms: Option<u64>,
    pub succeeded: bool,
    pub error: Option<String>,
}

/// What came of fetching the logs of a process, as values.
pub struct LogSyncView {
    pub elapsed_ms: u64,
    pub deadline_ms: Option<u64>,
    pub succeeded: bool,
    pub error: Option<Seq<char>>,
}

impl View for LogSyncEvidence {
    type V = LogSyncView;

    open spec fn view(&self) -> LogSyncView {
        LogSyncView {
            elapsed_ms: self.elapsed_ms,
            deadline_ms: self.deadline_ms,
            succeeded: self.succeeded,
            error: text_of(self.error),
        }
    }
}

/// What is known of a process of a server.
#[derive(Debug)]
pub struct ServerProcessEvidence {
    pub profiler: Option<ProfilerTargetRecord>,
    pub profiler_finalization: Option<CaptureActionRecord>,
    pub profiler_cleanup: Option<ProfilerCleanupRecord>,
    pub handle: Option<ProcessHandle>,
    pub readiness: Option<ReadinessEvidence>,
    pub readiness_failure: Option<ReadinessFailure>,
    pub stdout: String,
    pub stderr: String,
    pub log_sync_error: Option<String>,
    pub log_sync: Option<LogSyncEvidence>,
    pub cleanup: Vec<CleanupEvidence>,
}

/// What is known of a process of a server, as values.
#[verifier::ext_equal]
pub struct EvidenceView {
    pub profiler: Option<ProfilerTargetRecord>,
    pub profiler_finalization: Option<ActionView>,
    pub profiler_cleanup: Option<AgentView>,
    pub handle: Option<ProcessHandle>,
    pub readiness: Option<ReadinessView>,
    pub readiness_failure: Option<UnreadyView>,
    pub stdout: Seq<char>,
    pub stderr: Seq<char>,
    pub log_sync_error: Option<Seq<char>>,
    pub log_sync: Option<LogSyncView>,
    pub cleanup: Seq<CleanupView>,
}

/// The view of an optional value.
pub open spec fn view_of<T: View>(value: Option<T>) -> Option<T::V> {
    match value {
        Some(found) => Some(found@),
        None => None,
    }
}

/// The views of a list.
pub open spec fn views_of<T: View>(list: Seq<T>) -> Seq<T::V> {
    Seq::new(list.len(), |i: int| list[i]@)
}

impl View for ServerProcessEvidence {
    type V = EvidenceView;

    open spec fn view(&self) -> EvidenceView {
        EvidenceView {
            profiler: self.profiler,
            profiler_finalization: view_of(self.profiler_finalization),
            profiler_cleanup: view_of(self.profiler_cleanup),
            handle: self.handle,
            readiness: view_of(self.readiness),
            readiness_failure: view_of(self.readiness_failure),
            stdout: self.stdout@,
            stderr: self.stderr@,
            log_sync_error: text_of(self.log_sync_error),
            log_sync: view_of(self.log_sync),
            cleanup: views_of(self.cleanup@),
        }
    }
}

/// An exchange with the adapter of an integration.
#[derive(Debug)]
pub struct AdapterOperationEvidence {
    pub operation: String,
    pub request_sha256: String,
    pub response_sha256: String,
    pub timing: OperationTimingEvidence,
}

/// An exchange with the adapter of an integration, as values.
pub struct OperationView {
    pub operation: Seq<char>,
    pub request_sha256: Seq<char>,
    pub response_sha256: Seq<char>,
    pub timing: TimingView,
}

impl View for AdapterOperationEvidence {
    type V = OperationView;

    open spec fn view(&self) -> OperationView {
        OperationView {
            operation: self.operation@,
            request_sha256: self.request_sha256@,
            response_sha256: self.response_sha256@,
            timing: self.timing@,
        }
    }
}

/// A server. Its processes stand in their resolved order, each with what is known
/// of it.
#[derive(Debug)]
pub struct ServerRecord {
    pub schema_version: u32,
    pub inferlab_version: String,
    pub id: String,
    pub status: ServerStatus,
    pub started_unix_ms: u64,
    pub finished_unix_ms: Option<u64>,
    pub processes: Vec<String>,
    pub environment_checks: Vec<EnvironmentCheckEvidence>,
    /// The devices of each machine that was probed.
    pub hardware: Vec<(String, MachineHardwareEvidence)>,
    pub process_evidence: Vec<ServerProcessEvidence>,
    pub adapter_operations: Vec<AdapterOperationEvidence>,
    pub external_framework_probe: Option<OperationTimingEvidence>,
    pub failure: Option<FailureEvidence>,
}

/// A server, as values.
#[verifier::ext_equal]
pub struct RecordView {
    pub schema_version: u32,
    pub inferlab_version: Seq<char>,
    pub id: Seq<char>,
    pub status: ServerStatus,
    pub started_unix_ms: u64,
    pub finished_unix_ms: Option<u64>,
    pub processes: Seq<Seq<char>>,
    pub environment_checks: Seq<EnvironmentCheckEvidence>,
    pub hardware: Seq<(String, MachineHardwareEvidence)>,
    pub process_evidence: Seq<EvidenceView>,
    pub adapter_operations: Seq<OperationView>,
    pub external_framework_probe: Option<TimingView>,
    pub failure: Option<FailureView>,
}

impl View for ServerRecord {
    type V = RecordView;

    open spec fn view(&self) -> RecordView {
        RecordView {
            schema_version: self.schema_version,
            inferlab_version: self.inferlab_version@,
            id: self.id@,
            status: self.status,
            started_unix_ms: self.started_unix_ms,
            finished_unix_ms: self.finished_unix_ms,
            processes: texts(self.processes@),
            environment_checks: self.environment_checks@,
            hardware: self.hardware@,
            process_evidence: views_of(self.process_evidence@),
            adapter_operations: views_of(self.adapter_operations@),
            external_framework_probe: view_of(self.external_framework_probe),
            failure: view_of(self.failure),
        }
    }
}

impl RecordView {
    /// Every process has its evidence, and none stands twice.
    pub open spec fn wf(self) -> bool {
        &&& self.process_evidence.len() == self.processes.len()
        &&& distinct(self.processes)
    }

    /// The record with other evidence of a process.
    pub open spec fn with_evidence(self, i: int, evidence: EvidenceView) -> RecordView {
        RecordView { process_evidence: self.process_evidence.update(i, evidence), ..self }
    }

    /// The record with a failure.
    pub open spec fn with_failure(
        self,
        phase: FailurePhase,
        process: Option<Seq<char>>,
        message: Seq<char>,
    ) -> RecordView {
        RecordView {
            failure: Some(FailureView { phase, process_id: process, message }),
            ..self
        }
    }
}

/// No text stands twice.
pub open spec fn distinct(list: Seq<Seq<char>>) -> bool {
    forall|i: int, j: int| 0 <= i < j < list.len() ==> #[trigger] list[i] != #[trigger] list[j]
}

// ---------------------------------------------------------------------------
// New records

/// A file of a record, from the root of the workspace.
pub open spec fn record_file_path(id: Seq<char>, file: Seq<char>) -> Seq<char> {
    joined_path(joined_path(RECORDS_DIR@, id), file)
}

/// A file of a record, from the root of the workspace.
pub fn relative_record_path(id: &str, file: &str) -> (r: String)
    ensures
        r@ == record_file_path(id@, file@),
{
    join_path(join_path(RECORDS_DIR, id).as_str(), file)
}

/// What is known of a process before it is launched.
pub open spec fn fresh_evidence(id: Seq<char>, process: Seq<char>) -> EvidenceView {
    EvidenceView {
        profiler: None,
        profiler_finalization: None,
        profiler_cleanup: None,
        handle: None,
        readiness: None,
        readiness_failure: None,
        stdout: record_file_path(id, process + ".stdout.log"@),
        stderr: record_file_path(id, process + ".stderr.log"@),
        log_sync_error: None,
        log_sync: None,
        cleanup: Seq::empty(),
    }
}

fn new_evidence(id: &str, process: &str) -> (r: ServerProcessEvidence)
    ensures
        r@ == fresh_evidence(id@, process@),
{
    let r = ServerProcessEvidence {
        profiler: None,
        profiler_finalization: None,
        profiler_cleanup: None,
        handle: None,
        readiness: None,
        readiness_failure: None,
        stdout: relative_record_path(id, cat2(process, ".stdout.log").as_str()),
        stderr: relative_record_path(id, cat2(process, ".stderr.log").as_str()),
        log_sync_error: None,
        log_sync: None,
        cleanup: Vec::new(),
    };
    assert(r@ =~= fresh_evidence(id@, process@));
    r
}

/// The exchanges of an integration with its adapter, with their digests and, where
/// they took place, their times.
#[derive(Debug)]
pub struct AdapterExchanges {
    pub plan_request_sha256: String,
    pub plan_response_sha256: String,
    pub plan_timing: Option<OperationTimingEvidence>,
    pub render_request_sha256: String,
    pub render_response_sha256: String,
    pub render_timing: Option<OperationTimingEvidence>,
}

/// The evidence of the exchanges that took place.
pub open spec fn operations_of(exchanges: AdapterExchanges) -> Seq<OperationView> {
    let plan = match exchanges.plan_timing {
        Some(timing) => seq![
            OperationView {
                operation: "plan_serve"@,
                request_sha256: exchanges.plan_request_sha256@,
                response_sha256: exchanges.plan_response_sha256@,
                timing: timing@,
            },
        ],
        None => Seq::empty(),
    };
    match exchanges.render_timing {
        Some(timing) => plan.push(
            OperationView {
                operation: "render_serve"@,
                request_sha256: exchanges.render_request_sha256@,
                response_sha256: exchanges.render_response_sha256@,
                timing: timing@,
            },
        ),
        None => plan,
    }
}

/// The evidence of the exchanges that took place.
pub fn adapter_operation_evidence(exchanges: AdapterExchanges) -> (r: Vec<AdapterOperationEvidence>)
    ensures
        views_of(r@) == operations_of(exchanges),
{
    let mut out: Vec<AdapterOperationEvidence> = Vec::new();
    match exchanges.plan_timing {
        Some(timing) => {
            let operation = AdapterOperationEvidence {
                operation: "plan_serve".to_owned(),
                request_sha256: exchanges.plan_request_sha256,
                response_sha256: exchanges.plan_response_sha256,
                timing,
            };
            out.push(operation);
            assert(views_of(out@) =~= seq![operation@]);
        },
        None => {
            assert(views_of(out@) =~= Seq::empty());
        },
    }
    let ghost before = out@;
    match exchanges.render_timing {
        Some(timing) => {
            let operation = AdapterOperationEvidence {
                operation: "render_serve".to_owned(),
                request_sha256: exchanges.render_request_sha256,
                response_sha256: exchanges.render_response_sha256,
                timing,
            };
            out.push(operation);
            assert(views_of(out@) =~= views_of(before).push(operation@));
        },
        None => {},
    }
    out
}

/// Whether texts stand twice in a list.
fn repeats(list: &[String]) -> (r: bool)
    ensures
        r == !distinct(texts(list@)),
{
    let ghost all = texts(list@);
    let mut i: usize = 0;
    while i < list.len()
        invariant
            i <= list@.len(),
            all == texts(list@),
            forall|a: int, b: int|
                0 <= a < b < list@.len() && a < i ==> #[trigger] all[a] != #[trigger] all[b],
        decreases list@.len() - i,
    {
        let mut j: usize = i + 1;
        while j < list.len()
            invariant
                i < j <= list@.len(),
                all == texts(list@),
                forall|b: int| i < b < j ==> all[i as int] != #[trigger] all[b],
            decreases list@.len() - j,
        {
            if same(list[i].as_str(), list[j].as_str()) {
                assert(all[i as int] == all[j as int]);
                return true;
            }
            assert(all[i as int] != all[j as int]);
            j += 1;
        }
        i += 1;
    }
    false
}

/// What a new record is of.
pub struct NewServer<'a> {
    pub server: &'a str,
    pub case: Option<&'a str>,
    /// The identity that is asked for, where one is.
    pub requested_id: Option<&'a str>,
    pub pid: u32,
    /// The version that writes the record.
    pub version: &'a str,
}

/// A server that is about to start.
pub open spec fn starting(
    id: Seq<char>,
    version: Seq<char>,
    started: u64,
    processes: Seq<Seq<char>>,
    exchanges: AdapterExchanges,
    probe: Option<TimingView>,
) -> RecordView {
    RecordView {
        schema_version: SCHEMA_VERSION,
        inferlab_version: version,
        id,
        status: ServerStatus::Starting,
        started_unix_ms: started,
        finished_unix_ms: None,
        processes,
        environment_checks: Seq::empty(),
        hardware: Seq::empty(),
        process_evidence: Seq::new(
            processes.len(),
            |i: int| fresh_evidence(id, processes[i]),
        ),
        adapter_operations: operations_of(exchanges),
        external_framework_probe: probe,
        failure: None,
    }
}

/// Whether the identity of a new record is that of the server.
pub open spec fn identity_given(
    r: Result<String, InferlabError>,
    new: NewServer,
    unix_ms: u64,
) -> bool {
    match new.requested_id {
        Some(id) => if valid_id(id@) {
            r matches Ok(found) && found@ == id@
        } else {
            refuses_lifecycle(r, "invalid "@ + "server record"@ + " id "@ + debug_text(id@))
        },
        None => identified(
            r,
            RecordIdentity::Serve { server: new.server, case: new.case },
            unix_ms,
            new.pid,
        ),
    }
}

/// The identity of a new record: the one that is asked for, where it is a valid
/// one, and a new one where none is.
pub fn server_record_id(new: &NewServer, unix_ms: u64) -> (r: Result<String, InferlabError>)
    ensures
        identity_given(r, *new, unix_ms),
{
    match new.requested_id {
        Some(id) => match validate_record_id("server record", id) {
            Ok(()) => Ok(id.to_owned()),
            Err(error) => Err(error),
        },
        None => crate::record::record_id(
            RecordIdentity::Serve { server: new.server, case: new.case },
            unix_ms,
            new.pid,
        ),
    }
}

impl ServerRecord {
    /// A record of a server that is about to start, with the identity that it was
    /// given.
    pub fn begin(
        id: String,
        version: &str,
        started_unix_ms: u64,
        processes: &[String],
        exchanges: AdapterExchanges,
        external_framework_probe: Option<OperationTimingEvidence>,
    ) -> (r: Result<ServerRecord, InferlabError>)
        ensures
            if !distinct(texts(processes@)) {
                refuses_lifecycle(r, "resolved server contains duplicate process identities"@)
            } else {
                r matches Ok(record) && record@.wf() && record@ == starting(
                    id@,
                    version@,
                    started_unix_ms,
                    texts(processes@),
                    exchanges,
                    view_of(external_framework_probe),
                )
            },
    {
        if repeats(processes) {
            return lifecycle_error(
                "resolved server contains duplicate process identities".to_owned(),
            );
        }
        let ghost ids = texts(processes@);
        let ghost all = Seq::new(ids.len(), |i: int| fresh_evidence(id@, ids[i]));
        let mut evidence: Vec<ServerProcessEvidence> = Vec::new();
        let mut i: usize = 0;
        assert(views_of(evidence@) =~= all.take(0));
        while i < processes.len()
            invariant
                i <= processes@.len(),
                ids == texts(processes@),
                all == Seq::new(ids.len(), |i: int| fresh_evidence(id@, ids[i])),
                views_of(evidence@) == all.take(i as int),
            decreases processes@.len() - i,
        {
            let ghost before = evidence@;
            let next = new_evidence(id.as_str(), processes[i].as_str());
            evidence.push(next);
            proof {
                assert(ids[i as int] == processes@[i as int]@);
                assert(views_of(evidence@) =~= views_of(before).push(next@));
                assert(all.take(i + 1) =~= all.take(i as int).push(all[i as int]));
            }
            i += 1;
        }
        assert(all.take(i as int) =~= all);
        let record = ServerRecord {
            schema_version: SCHEMA_VERSION,
            inferlab_version: version.to_owned(),
            id,
            status: ServerStatus::Starting,
            started_unix_ms,
            finished_unix_ms: None,
            processes: copy_list(processes),
            environment_checks: Vec::new(),
            hardware: Vec::new(),
            process_evidence: evidence,
            adapter_operations: adapter_operation_evidence(exchanges),
            external_framework_probe,
            failure: None,
        };
        proof {
            assert(record.environment_checks@ =~= Seq::empty());
            assert(record.hardware@ =~= Seq::empty());
        }
        Ok(record)
    }
}

// ---------------------------------------------------------------------------
// Stored records

/// Why the processes of a stored record are not in order: one stands twice in its
/// hierarchy, or the evidence is not that of its processes.
pub open spec fn order_fault(id: Seq<char>, hierarchy: Seq<Seq<char>>, keys: Seq<Seq<char>>) -> Option<
    Seq<char>,
> {
    match first_repeat(hierarchy) {
        Some(at) => Some(
            "server record "@ + debug_text(id) + " repeats process "@ + debug_text(hierarchy[at])
                + " in its resolved hierarchy"@,
        ),
        None => if forall|name: Seq<char>| #[trigger]
            hierarchy.contains(name) <==> keys.contains(name) {
            None
        } else {
            Some(
                "server record "@ + debug_text(id)
                    + " process evidence does not match its resolved hierarchy"@,
            )
        },
    }
}

/// The first place that repeats an earlier one.
pub open spec fn first_repeat(list: Seq<Seq<char>>) -> Option<int> {
    crate::search::first_index(list.len(), repeats_at(list))
}

/// Whether a place repeats an earlier one.
pub open spec fn repeats_at(list: Seq<Seq<char>>) -> spec_fn(int) -> bool {
    |i: int| exists|j: int| 0 <= j < i && #[trigger] list[j] == list[i]
}

fn all_listed(a: &[String], b: &[String]) -> (r: bool)
    ensures
        r == forall|i: int| 0 <= i < a@.len() ==> lists(b@, (#[trigger] a@[i])@),
{
    let mut i: usize = 0;
    while i < a.len()
        invariant
            i <= a@.len(),
            forall|j: int| 0 <= j < i ==> lists(b@, (#[trigger] a@[j])@),
        decreases a@.len() - i,
    {
        if !list_contains(b, a[i].as_str()) {
            return false;
        }
        i += 1;
    }
    true
}

/// The processes of a stored record in order. `keys` are the processes that it has
/// evidence of.
pub fn process_order(id: &str, hierarchy: &[String], keys: &[String]) -> (r: Result<
    Vec<String>,
    InferlabError,
>)
    ensures
        match order_fault(id@, texts(hierarchy@), texts(keys@)) {
            Some(text) => refuses_lifecycle(r, text),
            None => r matches Ok(order) && order@ == hierarchy@,
        },
{
    let ghost all = texts(hierarchy@);
    let ghost known = texts(keys@);
    let ghost again = repeats_at(all);
    let mut i: usize = 0;
    while i < hierarchy.len()
        invariant
            i <= hierarchy@.len(),
            all == texts(hierarchy@),
            again == repeats_at(all),
            forall|a: int| 0 <= a < i ==> !(#[trigger] again(a)),
        decreases hierarchy@.len() - i,
    {
        let mut j: usize = 0;
        while j < i
            invariant
                j <= i < hierarchy@.len(),
                all == texts(hierarchy@),
                again == repeats_at(all),
                forall|a: int| 0 <= a < i ==> !(#[trigger] again(a)),
                forall|b: int| 0 <= b < j ==> #[trigger] all[b] != all[i as int],
            decreases i - j,
        {
            assert(all[j as int] == hierarchy@[j as int]@ && all[i as int]
                == hierarchy@[i as int]@);
            if same(hierarchy[j].as_str(), hierarchy[i].as_str()) {
                proof {
                    assert(all[j as int] == all[i as int]);
                    assert(again(i as int));
                    crate::search::lemma_first_index_is(all.len(), again, i as int);
                }
                return lifecycle_error(
                    cat5(
                        "server record ",
                        debug(id).as_str(),
                        " repeats process ",
                        debug(hierarchy[i].as_str()).as_str(),
                        " in its resolved hierarchy",
                    ),
                );
            }
            j += 1;
        }
        assert(!again(i as int));
        i += 1;
    }
    proof {
        crate::search::lemma_first_index(all.len(), again);
    }
    let matches: bool = all_listed(hierarchy, keys) && all_listed(keys, hierarchy);
    proof {
        assert forall|name: Seq<char>| all.contains(name) <==> lists(hierarchy@, name) by {
            if all.contains(name) {
                let k = choose|k: int| 0 <= k < all.len() && all[k] == name;
                assert(hierarchy@[k]@ == name);
            }
            if lists(hierarchy@, name) {
                let k = choose|k: int| 0 <= k < hierarchy@.len() && (#[trigger] hierarchy@[k])@ == name;
                assert(all[k] == name);
            }
        }
        assert forall|name: Seq<char>| known.contains(name) <==> lists(keys@, name) by {
            if known.contains(name) {
                let k = choose|k: int| 0 <= k < known.len() && known[k] == name;
                assert(keys@[k]@ == name);
            }
            if lists(keys@, name) {
                let k = choose|k: int| 0 <= k < keys@.len() && (#[trigger] keys@[k])@ == name;
                assert(known[k] == name);
            }
        }
        if matches {
            assert forall|name: Seq<char>| #[trigger]
                all.contains(name) <==> known.contains(name) by {
                if lists(hierarchy@, name) {
                    let k = choose|k: int|
                        0 <= k < hierarchy@.len() && (#[trigger] hierarchy@[k])@ == name;
                    assert(lists(keys@, hierarchy@[k]@));
                }
                if lists(keys@, name) {
                    let k = choose|k: int| 0 <= k < keys@.len() && (#[trigger] keys@[k])@ == name;
                    assert(lists(hierarchy@, keys@[k]@));
                }
            }
        } else {
            if forall|name: Seq<char>| #[trigger] all.contains(name) <==> known.contains(name) {
                assert forall|k: int| 0 <= k < hierarchy@.len() implies lists(
                    keys@,
                    (#[trigger] hierarchy@[k])@,
                ) by {
                    assert(all[k] == hierarchy@[k]@);
                    assert(all.contains(hierarchy@[k]@));
                }
                assert forall|k: int| 0 <= k < keys@.len() implies lists(
                    hierarchy@,
                    (#[trigger] keys@[k])@,
                ) by {
                    assert(known[k] == keys@[k]@);
                    assert(known.contains(keys@[k]@));
                    assert(all.contains(keys@[k]@));
                }
            }
        }
    }
    if !matches {
        return lifecycle_error(
            cat3(
                "server record ",
                debug(id).as_str(),
                " process evidence does not match its resolved hierarchy",
            ),
        );
    }
    Ok(copy_list(hierarchy))
}

// ---------------------------------------------------------------------------
// Looking up

impl ServerRecord {
    /// What is known of the process with the id.
    pub fn process(&self, id: &str) -> (r: Result<&ServerProcessEvidence, InferlabError>)
        requires
            self@.wf(),
        ensures
            match r {
                Ok(found) => exists|i: int|
                    0 <= i < self@.processes.len() && #[trigger] self@.processes[i] == id@
                        && *found == self.process_evidence@[i],
                Err(_) => {
                    &&& !lists(self.processes@, id@)
                    &&& refuses_lifecycle(
                        r,
                        "server record "@ + debug_text(self.id@)
                            + " has no runtime evidence for process "@ + debug_text(id@),
                    )
                },
            },
    {
        assert(self@.process_evidence.len() == self.process_evidence@.len());
        let mut i: usize = 0;
        while i < self.processes.len()
            invariant
                i <= self.processes@.len(),
                self.processes@.len() == self.process_evidence@.len(),
                forall|j: int| 0 <= j < i ==> (#[trigger] self.processes@[j])@ != id@,
            decreases self.processes@.len() - i,
        {
            if same(self.processes[i].as_str(), id) {
                assert(self@.processes[i as int] == id@);
                return Ok(&self.process_evidence[i]);
            }
            i += 1;
        }
        lifecycle_error(
            cat4(
                "server record ",
                debug(self.id.as_str()).as_str(),
                " has no runtime evidence for process ",
                debug(id).as_str(),
            ),
        )
    }
}

/// A server that is about to start has neither ended nor failed, and nothing is known of
/// its processes but where their outputs will be, each in a file of its own below the
/// record.
pub proof fn law_starting_server_knows_nothing_yet(
    id: Seq<char>,
    version: Seq<char>,
    started: u64,
    processes: Seq<Seq<char>>,
    exchanges: AdapterExchanges,
    probe: Option<TimingView>,
    i: int,
)
    requires
        0 <= i < processes.len(),
    ensures
        ({
            let record = starting(id, version, started, processes, exchanges, probe);
            let evidence = record.process_evidence[i];
            &&& record.id == id && record.inferlab_version == version
            &&& record.status is Starting && record.failure is None
            &&& record.started_unix_ms == started && record.finished_unix_ms is None
            &&& record.processes == processes && record.process_evidence.len() == processes.len()
            &&& record.environment_checks.len() == 0 && record.hardware.len() == 0
            &&& record.external_framework_probe == probe
            &&& evidence.handle is None && evidence.readiness is None
                && evidence.readiness_failure is None
            &&& evidence.profiler is None && evidence.profiler_finalization is None
                && evidence.profiler_cleanup is None
            &&& evidence.log_sync is None && evidence.log_sync_error is None
                && evidence.cleanup.len() == 0
            &&& evidence.stdout != evidence.stderr
        }),
{
    let out = processes[i] + ".stdout.log"@;
    let err = processes[i] + ".stderr.log"@;
    reveal_strlit(".stdout.log");
    reveal_strlit(".stderr.log");
    assert(".stdout.log"@[4] == 'o' && ".stderr.log"@[4] == 'e');
    assert(out[processes[i].len() as int + 4] != err[processes[i].len() as int + 4]);
    let base = joined_path(RECORDS_DIR@, id);
    crate::paths::law_joined_path_lies_below_its_base(base, out);
    crate::paths::law_joined_path_lies_below_its_base(base, err);
}

/// The exchanges that took place are recorded in their order, each with the digests of its
/// own messages and its own time.
pub proof fn law_exchange_is_recorded_with_its_own_messages(exchanges: AdapterExchanges)
    ensures
        ({
            let operations = operations_of(exchanges);
            &&& exchanges.plan_timing matches Some(timing) ==> {
                &&& operations.len() > 0
                &&& operations[0].operation == "plan_serve"@
                &&& operations[0].request_sha256 == exchanges.plan_request_sha256@
                &&& operations[0].response_sha256 == exchanges.plan_response_sha256@
                &&& operations[0].timing == timing@
            }
            &&& exchanges.render_timing matches Some(timing) ==> {
                &&& operations.len() > 0
                &&& operations.last().operation == "render_serve"@
                &&& operations.last().request_sha256 == exchanges.render_request_sha256@
                &&& operations.last().response_sha256 == exchanges.render_response_sha256@
                &&& operations.last().timing == timing@
            }
            &&& operations.len() == (if exchanges.plan_timing is Some {
                1int
            } else {
                0
            }) + (if exchanges.render_timing is Some {
                1int
            } else {
                0
            })
        }),
{
}

/// A stored record is in order exactly where no process stands twice in its hierarchy and
/// the evidence is that of the same processes.
pub proof fn law_record_is_in_order_with_its_hierarchy(
    id: Seq<char>,
    hierarchy: Seq<Seq<char>>,
    keys: Seq<Seq<char>>,
)
    ensures
        order_fault(id, hierarchy, keys) is None <==> (forall|i: int, j: int|
            0 <= i < j < hierarchy.len() ==> #[trigger] hierarchy[i] != #[trigger] hierarchy[j])
            && (forall|name: Seq<char>| #[trigger]
            hierarchy.contains(name) <==> keys.contains(name)),
{
    let again = repeats_at(hierarchy);
    crate::search::lemma_first_index(hierarchy.len(), again);
    if first_repeat(hierarchy) is None {
        assert forall|i: int, j: int| 0 <= i < j < hierarchy.len() implies #[trigger] hierarchy[i]
            != #[trigger] hierarchy[j] by {
            assert(!again(j));
        }
    }
}

/// A requested id is the id of the record where it is a valid one, and is refused where it is
/// not; no other is made in its place.
pub proof fn law_requested_id_is_used(
    r: Result<String, InferlabError>,
    new: NewServer,
    unix_ms: u64,
)
    requires
        identity_given(r, new, unix_ms),
        new.requested_id is Some,
    ensures
        r is Ok <==> valid_id(new.requested_id->0@),
        r matches Ok(id) ==> id@ == new.requested_id->0@,
{
}

} // verus!
