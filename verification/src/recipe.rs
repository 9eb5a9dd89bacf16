//! Closed-loop recipes: sources, a server, evals behind a gate, benches, and the
//! end of it all.

use crate::dict::{less, text_less};
use crate::error::{invalid_config, refuses, InferlabError};
use crate::process_group::result_of;
use crate::record::{identified, record_id, RecordIdentity};
use crate::server::record::{
    view_of, views_of, EvidenceView, RecordView, ServerRecord, ServerStatus,
};
use crate::text::{
    cat2, cat4, cat5, copy_text, debug, debug_text, decimal, padded, same, text_of, texts, to_padded,
};
use crate::time_bound::{
    BoundKind, OperationBound, OperationTerminalCause, OperationTimingEvidence, TimingView,
};
use vstd::prelude::*;
use vstd::string::*;

verus! {

/// The version of the record's form.
pub const RECIPE_SCHEMA_VERSION: u32 = 4;

/// How a recipe stands.
#[derive(Clone, Copy, Debug, PartialEq, Eq, Structural)]
pub enum RecipeStatus {
    Running,
    Succeeded,
    Failed,
}

/// How a workload stands.
#[derive(Clone, Copy, Debug, PartialEq, Eq, Structural)]
pub enum WorkloadStatus {
    Running,
    Succeeded,
    Failed,
    Skipped,
}

/// The server of a recipe.
#[derive(Debug)]
pub struct ServerRecordRef {
    pub id: String,
    pub status: Option<ServerStatus>,
}

/// A workload of a recipe.
#[derive(Debug)]
pub struct WorkloadRecordRef {
    pub definition_id: String,
    pub id: String,
    pub status: WorkloadStatus,
}

/// A workload of a recipe, as values.
pub struct WorkloadView {
    pub definition_id: Seq<char>,
    pub id: Seq<char>,
    pub status: WorkloadStatus,
}

impl View for WorkloadRecordRef {
    type V = WorkloadView;

    open spec fn view(&self) -> WorkloadView {
        WorkloadView { definition_id: self.definition_id@, id: self.id@, status: self.status }
    }
}

/// What came of ending the server of a recipe.
#[derive(Debug)]
pub struct RecipeCleanupEvidence {
    pub server_record_id: String,
    pub status: Option<ServerStatus>,
    pub verified: bool,
    pub error: Option<String>,
}

/// What came of ending the server of a recipe, as values.
pub struct RecipeCleanupView {
    pub server_record_id: Seq<char>,
    pub status: Option<ServerStatus>,
    pub verified: bool,
    pub error: Option<Seq<char>>,
}

impl View for RecipeCleanupEvidence {
    type V = RecipeCleanupView;

    open spec fn view(&self) -> RecipeCleanupView {
        RecipeCleanupView {
            server_record_id: self.server_record_id@,
            status: self.status,
            verified: self.verified,
            error: text_of(self.error),
        }
    }
}

/// An attempt to prepare a source of measurements.
#[derive(Debug)]
pub struct DataAssetAttempt {
    pub attempt_id: String,
    /// What an eval is bound to once the source is there.
    pub eval_binding: Option<String>,
}

/// An attempt to prepare a source of measurements, as values.
pub struct AttemptView {
    pub attempt_id: Seq<char>,
    pub eval_binding: Option<Seq<char>>,
}

impl View for DataAssetAttempt {
    type V = AttemptView;

    open spec fn view(&self) -> AttemptView {
        AttemptView { attempt_id: self.attempt_id@, eval_binding: text_of(self.eval_binding) }
    }
}

/// A recipe.
#[derive(Debug)]
pub struct RecipeRecord {
    pub schema_version: u32,
    pub inferlab_version: String,
    pub id: String,
    pub status: RecipeStatus,
    pub started_unix_ms: u64,
    pub finished_unix_ms: Option<u64>,
    pub server: ServerRecordRef,
    pub evals: Vec<WorkloadRecordRef>,
    pub benches: Vec<WorkloadRecordRef>,
    pub interrupted: bool,
    pub errors: Vec<String>,
    pub cleanup: Option<RecipeCleanupEvidence>,
    pub data_assets: Vec<DataAssetAttempt>,
    pub source_preparation_completed: bool,
    pub serving_launch_attempted: bool,
    pub source_preparation_timing: Option<OperationTimingEvidence>,
}

/// A recipe, as values.
#[verifier::ext_equal]
pub struct RecipeView {
    pub schema_version: u32,
    pub inferlab_version: Seq<char>,
    pub id: Seq<char>,
    pub status: RecipeStatus,
    pub started_unix_ms: u64,
    pub finished_unix_ms: Option<u64>,
    pub server_id: Seq<char>,
    pub server_status: Option<ServerStatus>,
    pub evals: Seq<WorkloadView>,
    pub benches: Seq<WorkloadView>,
    pub interrupted: bool,
    pub errors: Seq<Seq<char>>,
    pub cleanup: Option<RecipeCleanupView>,
    pub data_assets: Seq<AttemptView>,
    pub source_preparation_completed: bool,
    pub serving_launch_attempted: bool,
    pub source_preparation_timing: Option<TimingView>,
}

impl View for RecipeRecord {
    type V = RecipeView;

    open spec fn view(&self) -> RecipeView {
        RecipeView {
            schema_version: self.schema_version,
            inferlab_version: self.inferlab_version@,
            id: self.id@,
            status: self.status,
            started_unix_ms: self.started_unix_ms,
            finished_unix_ms: self.finished_unix_ms,
            server_id: self.server.id@,
            server_status: self.server.status,
            evals: views_of(self.evals@),
            benches: views_of(self.benches@),
            interrupted: self.interrupted,
            errors: texts(self.errors@),
            cleanup: view_of(self.cleanup),
            data_assets: views_of(self.data_assets@),
            source_preparation_completed: self.source_preparation_completed,
            serving_launch_attempted: self.serving_launch_attempted,
            source_preparation_timing: view_of(self.source_preparation_timing),
        }
    }
}

// ---------------------------------------------------------------------------
// New records

/// What a new record is of.
pub struct NewRecipe<'a> {
    /// The recipe, where the execution is one.
    pub recipe: Option<&'a str>,
    pub server: &'a str,
    pub case: Option<&'a str>,
    pub pid: u32,
    pub version: &'a str,
}

/// A recipe that is about to run.
pub open spec fn running(
    id: Seq<char>,
    server_id: Seq<char>,
    version: Seq<char>,
    started: u64,
    assets: Seq<AttemptView>,
) -> RecipeView {
    RecipeView {
        schema_version: RECIPE_SCHEMA_VERSION,
        inferlab_version: version,
        id,
        status: RecipeStatus::Running,
        started_unix_ms: started,
        finished_unix_ms: None,
        server_id,
        server_status: None,
        evals: Seq::empty(),
        benches: Seq::empty(),
        interrupted: false,
        errors: Seq::empty(),
        cleanup: None,
        data_assets: assets,
        source_preparation_completed: false,
        serving_launch_attempted: false,
        source_preparation_timing: None,
    }
}

/// Whether a new record is that of a recipe at a moment: its identity and that of
/// its server are made of the same moment, and the first that cannot be made is
/// told.
pub open spec fn begins(
    r: Result<RecipeRecord, InferlabError>,
    new: NewRecipe,
    unix_ms: u64,
    assets: Seq<AttemptView>,
) -> bool {
    match new.recipe {
        None => crate::error::refuses(r, "recipe execution resolved without a recipe identity"@),
        Some(recipe) => {
            let own = RecordIdentity::Recipe { recipe, case: new.case };
            let server = RecordIdentity::Serve { server: new.server, case: new.case };
            match r {
                Ok(record) => record@ == running(
                    record@.id,
                    record@.server_id,
                    new.version@,
                    unix_ms,
                    assets,
                ) && identified(Ok(record.id), own, unix_ms, new.pid) && identified(
                    Ok(record.server.id),
                    server,
                    unix_ms,
                    new.pid,
                ),
                Err(error) => identified(Err(error), own, unix_ms, new.pid),
            }
        },
    }
}

impl RecipeRecord {
    /// A record of a recipe that is about to run.
    pub fn begin(new: &NewRecipe, unix_ms: u64, data_assets: Vec<DataAssetAttempt>) -> (r: Result<
        RecipeRecord,
        InferlabError,
    >)
        ensures
            begins(r, *new, unix_ms, views_of(data_assets@)),
    {
        let recipe = match new.recipe {
            Some(recipe) => recipe,
            None => {
                return crate::error::invalid_config(
                    "recipe execution resolved without a recipe identity".to_owned(),
                );
            },
        };
        let id = match record_id(
            RecordIdentity::Recipe { recipe, case: new.case },
            unix_ms,
            new.pid,
        ) {
            Ok(id) => id,
            Err(error) => return Err(error),
        };
        let server_id = match record_id(
            RecordIdentity::Serve { server: new.server, case: new.case },
            unix_ms,
            new.pid,
        ) {
            Ok(id) => id,
            Err(error) => return Err(error),
        };
        let record = RecipeRecord {
            schema_version: RECIPE_SCHEMA_VERSION,
            inferlab_version: new.version.to_owned(),
            id,
            status: RecipeStatus::Running,
            started_unix_ms: unix_ms,
            finished_unix_ms: None,
            server: ServerRecordRef { id: server_id, status: None },
            evals: Vec::new(),
            benches: Vec::new(),
            interrupted: false,
            errors: Vec::new(),
            cleanup: None,
            data_assets,
            source_preparation_completed: false,
            serving_launch_attempted: false,
            source_preparation_timing: None,
        };
        proof {
            assert(views_of(record.evals@) =~= Seq::empty());
            assert(views_of(record.benches@) =~= Seq::empty());
            assert(texts(record.errors@) =~= Seq::empty());
        }
        Ok(record)
    }
}

/// The place of the attempt with the id.
pub open spec fn attempt_place(attempts: Seq<AttemptView>, id: Seq<char>) -> Option<int> {
    crate::search::first_index(attempts.len(), |i: int| attempts[i].attempt_id == id)
}

fn find_attempt(attempts: &Vec<DataAssetAttempt>, id: &str) -> (r: Option<usize>)
    ensures
        match r {
            Some(i) => i < attempts@.len() && attempt_place(views_of(attempts@), id@) == Some(
                i as int,
            ),
            None => attempt_place(views_of(attempts@), id@) is None,
        },
{
    let ghost all = views_of(attempts@);
    let ghost named = |i: int| all[i].attempt_id == id@;
    let mut i: usize = 0;
    while i < attempts.len()
        invariant
            i <= attempts@.len(),
            all == views_of(attempts@),
            named == (|i: int| all[i].attempt_id == id@),
            forall|j: int| 0 <= j < i ==> !(#[trigger] named(j)),
        decreases attempts@.len() - i,
    {
        assert(all[i as int] == attempts@[i as int]@);
        if same(attempts[i].attempt_id.as_str(), id) {
            proof {
                assert(named(i as int));
                crate::search::lemma_first_index_is(all.len(), named, i as int);
            }
            return Some(i);
        }
        i += 1;
    }
    proof {
        crate::search::lemma_first_index(all.len(), named);
    }
    None
}

impl RecipeRecord {
    /// Replaces an attempt by what became of it.
    pub fn update_data_asset_attempt(&mut self, update: DataAssetAttempt) -> (r: Result<
        (),
        InferlabError,
    >)
        ensures
            match attempt_place(old(self)@.data_assets, update.attempt_id@) {
                Some(i) => r is Ok && final(self)@ == (RecipeView {
                    data_assets: old(self)@.data_assets.update(i, update@),
                    ..old(self)@
                }),
                None => final(self)@ == old(self)@ && crate::error::refuses(
                    r,
                    "unknown recipe data-asset attempt "@ + debug_text(update.attempt_id@),
                ),
            },
    {
        match find_attempt(&self.data_assets, update.attempt_id.as_str()) {
            Some(at) => {
                let ghost before = self.data_assets@;
                self.data_assets.set(at, update);
                assert(views_of(self.data_assets@) =~= views_of(before).update(
                    at as int,
                    update@,
                ));
                Ok(())
            },
            None => crate::error::invalid_config(
                cat2(
                    "unknown recipe data-asset attempt ",
                    debug(update.attempt_id.as_str()).as_str(),
                ),
            ),
        }
    }
}

/// The source of a workload of a recipe.
#[derive(Debug)]
pub enum WorkloadDataAssetEvidence {
    Unneeded,
    Recipe {
        recipe_record_id: String,
        attempt_ids: Vec<String>,
        prepared_source: Option<String>,
    },
}

/// The source of a workload. `attempt_id` is the attempt that prepares it, where
/// it needs one.
pub fn recipe_workload_data_assets(record: &RecipeRecord, attempt_id: Option<String>) -> (r:
    WorkloadDataAssetEvidence)
    ensures
        match attempt_id {
            None => r is Unneeded,
            Some(id) => r matches WorkloadDataAssetEvidence::Recipe {
                recipe_record_id,
                attempt_ids,
                prepared_source,
            } && recipe_record_id@ == record@.id && texts(attempt_ids@) == seq![id@] && text_of(
                prepared_source,
            ) == match attempt_place(record@.data_assets, id@) {
                Some(i) => record@.data_assets[i].eval_binding,
                None => None,
            },
        },
{
    let id = match attempt_id {
        None => return WorkloadDataAssetEvidence::Unneeded,
        Some(id) => id,
    };
    let prepared_source = match find_attempt(&record.data_assets, id.as_str()) {
        Some(at) => {
            assert(record@.data_assets[at as int] == record.data_assets@[at as int]@);
            copy_text(&record.data_assets[at].eval_binding)
        },
        None => None,
    };
    let attempt_ids = vec![id];
    assert(texts(attempt_ids@) =~= seq![id@]);
    WorkloadDataAssetEvidence::Recipe {
        recipe_record_id: record.id.clone(),
        attempt_ids,
        prepared_source,
    }
}

// ---------------------------------------------------------------------------
// The end of a server

/// Whether a process is known to be gone: its last cleanup saw it so, or it never
/// had a handle.
pub open spec fn process_gone(evidence: EvidenceView) -> bool {
    if evidence.cleanup.len() == 0 {
        evidence.handle is None
    } else {
        evidence.cleanup.last().verified
    }
}

/// The error of the last cleanup of a process.
pub open spec fn last_error(evidence: EvidenceView) -> Option<Seq<char>> {
    if evidence.cleanup.len() == 0 {
        None
    } else {
        evidence.cleanup.last().error
    }
}

/// Whether a process is the first, by its id, whose last cleanup has an error.
pub open spec fn first_with_error(record: RecordView, i: int) -> bool {
    &&& 0 <= i < record.processes.len()
    &&& last_error(record.process_evidence[i]) is Some
    &&& forall|j: int|
        0 <= j < record.processes.len() && j != i && last_error(
            #[trigger] record.process_evidence[j],
        ) is Some ==> text_less(record.processes[i], record.processes[j])
}

/// Whether the cleanup of a server was summed up: every process is known to be gone or
/// not, and the error is that of the first process, by its id, whose last cleanup has
/// one.
pub open spec fn summed_up(record: RecordView, gone: bool, error: Option<Seq<char>>) -> bool {
    &&& gone == forall|i: int|
        0 <= i < record.processes.len() ==> process_gone(#[trigger] record.process_evidence[i])
    &&& match error {
        Some(error) => exists|i: int| #[trigger]
            first_with_error(record, i) && last_error(record.process_evidence[i]) == Some(error),
        None => forall|i: int|
            0 <= i < record.processes.len() ==> last_error(
                #[trigger] record.process_evidence[i],
            ) is None,
    }
}

/// Sums up the cleanup of a server: whether every process is known to be gone, and
/// the error of the first, by its id, whose last cleanup has one.
pub fn server_cleanup_summary(record: &ServerRecord) -> (r: (bool, Option<String>))
    requires
        record@.wf(),
    ensures
        summed_up(record@, r.0, text_of(r.1)),
{
    let ghost view = record@;
    let count: usize = record.processes.len();
    assert(texts(record.processes@).len() == count);
    let mut gone: bool = true;
    let mut best: Option<usize> = None;
    let mut i: usize = 0;
    while i < count
        invariant
            i <= count,
            view == record@,
            view.wf(),
            count == view.processes.len(),
            count == record.processes@.len(),
            gone == forall|j: int|
                0 <= j < i ==> process_gone(#[trigger] view.process_evidence[j]),
            match best {
                Some(b) => b < i && last_error(view.process_evidence[b as int]) is Some
                    && forall|j: int|
                    0 <= j < i && j != b && last_error(#[trigger] view.process_evidence[j]) is Some
                        ==> text_less(view.processes[b as int], view.processes[j]),
                None => forall|j: int|
                    0 <= j < i ==> last_error(#[trigger] view.process_evidence[j]) is None,
            },
        decreases count - i,
    {
        let evidence = &record.process_evidence[i];
        assert(view.process_evidence[i as int] == evidence@);
        assert(view.processes[i as int] == record.processes@[i as int]@);
        let n: usize = evidence.cleanup.len();
        let mut with_error: bool = false;
        if n == 0 {
            if evidence.handle.is_some() {
                gone = false;
            }
        } else {
            assert(evidence@.cleanup.last() == evidence.cleanup@[n - 1]@);
            if !evidence.cleanup[n - 1].verified {
                gone = false;
            }
            with_error = evidence.cleanup[n - 1].error.is_some();
        }
        if with_error {
            match best {
                None => {
                    best = Some(i);
                },
                Some(b) => {
                    assert(view.processes[b as int] == record.processes@[b as int]@);
                    proof {
                        crate::dict::lemma_less_total(
                            view.processes[b as int],
                            view.processes[i as int],
                        );
                        assert(view.processes[b as int] != view.processes[i as int]);
                    }
                    if less(record.processes[i].as_str(), record.processes[b].as_str()) {
                        proof {
                            assert forall|j: int|
                                0 <= j < i + 1 && j != i && last_error(
                                    #[trigger] view.process_evidence[j],
                                ) is Some implies text_less(
                                view.processes[i as int],
                                view.processes[j],
                            ) by {
                                if j != b {
                                    crate::dict::lemma_less_transitive(
                                        view.processes[i as int],
                                        view.processes[b as int],
                                        view.processes[j],
                                    );
                                }
                            }
                        }
                        best = Some(i);
                    }
                },
            }
        }
        i += 1;
    }
    let error: Option<String> = match best {
        Some(b) => {
            assert(view.process_evidence[b as int] == record.process_evidence@[b as int]@);
            let n: usize = record.process_evidence[b].cleanup.len();
            assert(record.process_evidence@[b as int]@.cleanup.last()
                == record.process_evidence@[b as int].cleanup@[n - 1]@);
            assert(first_with_error(view, b as int));
            copy_text(&record.process_evidence[b].cleanup[n - 1].error)
        },
        None => None,
    };
    (gone, error)
}

// ---------------------------------------------------------------------------
// Running a recipe

/// The measurements of a recipe, by the ids of their definitions.
#[derive(Debug)]
pub struct Measurements {
    pub evals: Vec<String>,
    pub benches: Vec<String>,
    /// The eval that must pass before any bench is run.
    pub gate: Option<String>,
}

/// What a recipe measures: one that was resolved to measure nothing is refused.
pub fn required_measurements(measurements: Option<Measurements>) -> (r: Result<
    Measurements,
    InferlabError,
>)
    ensures
        match measurements {
            Some(some) => r == Ok::<Measurements, InferlabError>(some),
            None => refuses(r, "closed-loop recipe has no resolved measurements"@),
        },
{
    match measurements {
        Some(some) => Ok(some),
        None => invalid_config("closed-loop recipe has no resolved measurements".to_owned()),
    }
}

/// What came of a workload.
#[derive(Debug)]
pub struct WorkloadOutcome {
    pub id: String,
    pub status: WorkloadStatus,
    pub passed: Option<bool>,
}

/// What a recipe is at.
#[derive(Clone, Copy, Debug, PartialEq, Eq, Structural)]
pub enum RecipePhase {
    /// The sources are prepared.
    Sources,
    /// The server is started.
    Launch,
    /// An eval is next.
    Eval { index: usize },
    /// An eval is run or skipped.
    Evaluating { index: usize },
    /// A bench is next.
    Bench { index: usize },
    /// A bench is run or skipped.
    Benching { index: usize },
    /// The server is stopped.
    Stop,
    /// The server that did not start is looked at.
    Inspect,
    /// The recipe is summed up.
    Finish,
    Over,
    /// The recipe could not be finished.
    Unfinished,
}

/// Why a workload is skipped.
#[derive(Clone, Copy, Debug, PartialEq, Eq, Structural)]
pub enum SkipReason {
    NoServer,
    Interrupted,
    Gate,
}

impl SkipReason {
    /// The reason in words.
    pub open spec fn words(self) -> Seq<char> {
        match self {
            SkipReason::NoServer => "server did not start"@,
            SkipReason::Interrupted => "recipe interrupted"@,
            SkipReason::Gate => "eval gate did not succeed"@,
        }
    }

    /// The reason in words.
    pub fn message(self) -> (r: &'static str)
        ensures
            r@ == self.words(),
    {
        match self {
            SkipReason::NoServer => "server did not start",
            SkipReason::Interrupted => "recipe interrupted",
            SkipReason::Gate => "eval gate did not succeed",
        }
    }
}

/// What to do next in a recipe.
#[derive(Clone, Copy, Debug, PartialEq, Eq, Structural)]
pub enum RecipeAction {
    PrepareSources,
    StartServer,
    /// Look for an interruption before the eval.
    Eval { index: usize },
    RunEval { index: usize },
    SkipEval { index: usize, reason: SkipReason },
    /// Look for an interruption before the bench.
    Bench { index: usize },
    RunBench { index: usize },
    SkipBench { index: usize, reason: SkipReason },
    StopServer,
    InspectServer,
    Finish,
    Over,
    /// Tell why the recipe could not be finished.
    Report,
}

/// What is known of the end of a server.
#[derive(Debug)]
pub struct ServerEnd {
    pub status: ServerStatus,
    pub verified: bool,
    pub error: Option<String>,
}

/// What came of a step of a recipe.
#[derive(Debug)]
pub enum RecipeEvent {
    /// The sources were prepared.
    Prepared { outcome: Result<(), String>, interrupted: bool, now: u128 },
    /// The server was started.
    Started { outcome: Result<(), String> },
    /// The next workload may be run, unless the recipe was interrupted.
    Next { interrupted: bool },
    /// The workload was run or skipped.
    Measured { outcome: Result<WorkloadOutcome, String> },
    /// The server was stopped, or looked at.
    Ended { outcome: Result<ServerEnd, String> },
    /// The clock was read to finish the recipe.
    Finished { interrupted: bool, clock: Result<u64, String> },
}

/// The run of a recipe.
#[derive(Debug)]
pub struct RecipeRun {
    pub record: RecipeRecord,
    pub measurements: Measurements,
    pub phase: RecipePhase,
    /// When the preparation of sources began.
    pub sources_began: u128,
    pub server_started: bool,
    pub gate_succeeded: bool,
    /// Why the workload at hand is skipped, where it is.
    pub skip: Option<SkipReason>,
    /// What is told of a recipe that could not be finished.
    pub message: String,
}

/// The run of a recipe, as values.
#[verifier::ext_equal]
pub struct RunView {
    pub record: RecipeView,
    pub evals: Seq<Seq<char>>,
    pub benches: Seq<Seq<char>>,
    pub gate: Option<Seq<char>>,
    pub phase: RecipePhase,
    pub sources_began: u128,
    pub server_started: bool,
    pub gate_succeeded: bool,
    pub skip: Option<SkipReason>,
    pub message: Seq<char>,
}

impl View for RecipeRun {
    type V = RunView;

    open spec fn view(&self) -> RunView {
        RunView {
            record: self.record@,
            evals: texts(self.measurements.evals@),
            benches: texts(self.measurements.benches@),
            gate: text_of(self.measurements.gate),
            phase: self.phase,
            sources_began: self.sources_began,
            server_started: self.server_started,
            gate_succeeded: self.gate_succeeded,
            skip: self.skip,
            message: self.message@,
        }
    }
}

/// The identity of a workload's record.
pub open spec fn workload_id(recipe: Seq<char>, kind: Seq<char>, index: nat, plan: Seq<char>) -> Seq<
    char,
> {
    recipe + kind + padded(decimal(index), 3) + "-"@ + plan
}

fn make_workload_id(recipe: &str, kind: &str, index: usize, plan: &str) -> (r: String)
    ensures
        r@ == workload_id(recipe@, kind@, index as nat, plan@),
{
    cat5(recipe, kind, to_padded(index as u64, 3).as_str(), "-", plan)
}

impl RunView {
    /// What the phase is about is there.
    pub open spec fn wf(self) -> bool {
        &&& self.evals.len() <= usize::MAX
        &&& self.benches.len() <= usize::MAX
        &&& match self.phase {
            RecipePhase::Eval { index } => index < self.evals.len(),
            RecipePhase::Evaluating { index } => index < self.evals.len(),
            RecipePhase::Bench { index } => index < self.benches.len(),
            RecipePhase::Benching { index } => index < self.benches.len(),
            _ => true,
        }
        &&& match self.phase {
            RecipePhase::Sources => self.record.evals.len() == 0 && self.record.benches.len() == 0,
            RecipePhase::Launch => self.record.evals.len() == 0 && self.record.benches.len() == 0,
            RecipePhase::Eval { index } => self.record.evals.len() == index
                && self.record.benches.len() == 0,
            RecipePhase::Evaluating { index } => self.record.evals.len() == index
                && self.record.benches.len() == 0,
            RecipePhase::Bench { index } => self.record.evals.len() == self.evals.len()
                && self.record.benches.len() == index,
            RecipePhase::Benching { index } => self.record.evals.len() == self.evals.len()
                && self.record.benches.len() == index,
            _ => self.record.evals.len() == self.evals.len() && self.record.benches.len()
                == self.benches.len(),
        }
        &&& self.phase is Over ==> self.record.finished_unix_ms is Some && (self.record.status
            == RecipeStatus::Succeeded ==> self.success())
        &&& (self.phase is Sources || self.phase is Launch) ==> !self.server_started
        &&& (self.server_started || self.phase is Launch) ==> self.record.serving_launch_attempted
    }

    /// Whether an event can come in the phase.
    pub open spec fn expects(self, event: RecipeEvent) -> bool {
        match self.phase {
            RecipePhase::Sources => event is Prepared,
            RecipePhase::Launch => event is Started,
            RecipePhase::Eval { .. } => event is Next,
            RecipePhase::Evaluating { .. } => event is Measured,
            RecipePhase::Bench { .. } => event is Next,
            RecipePhase::Benching { .. } => event is Measured,
            RecipePhase::Stop => event is Ended,
            RecipePhase::Inspect => event is Ended,
            RecipePhase::Finish => event is Finished,
            RecipePhase::Over => false,
            RecipePhase::Unfinished => false,
        }
    }

    /// What to do in the phase.
    pub open spec fn action(self) -> RecipeAction {
        match self.phase {
            RecipePhase::Sources => RecipeAction::PrepareSources,
            RecipePhase::Launch => RecipeAction::StartServer,
            RecipePhase::Eval { index } => RecipeAction::Eval { index },
            RecipePhase::Evaluating { index } => match self.skip {
                Some(reason) => RecipeAction::SkipEval { index, reason },
                None => RecipeAction::RunEval { index },
            },
            RecipePhase::Bench { index } => RecipeAction::Bench { index },
            RecipePhase::Benching { index } => match self.skip {
                Some(reason) => RecipeAction::SkipBench { index, reason },
                None => RecipeAction::RunBench { index },
            },
            RecipePhase::Stop => RecipeAction::StopServer,
            RecipePhase::Inspect => RecipeAction::InspectServer,
            RecipePhase::Finish => RecipeAction::Finish,
            RecipePhase::Over => RecipeAction::Over,
            RecipePhase::Unfinished => RecipeAction::Report,
        }
    }

    /// The run in another phase.
    pub open spec fn to(self, phase: RecipePhase) -> RunView {
        RunView { phase, ..self }
    }

    /// The run with another record.
    pub open spec fn with(self, record: RecipeView) -> RunView {
        RunView { record, ..self }
    }

    /// The run with one more error.
    pub open spec fn and_error(self, error: Seq<char>) -> RunView {
        self.with(RecipeView { errors: self.record.errors.push(error), ..self.record })
    }

    /// What follows the benches.
    pub open spec fn after_benches(self) -> RunView {
        self.to(
            if self.server_started {
                RecipePhase::Stop
            } else if self.record.serving_launch_attempted {
                RecipePhase::Inspect
            } else {
                RecipePhase::Finish
            },
        )
    }

    /// What follows when the first benches were dealt with.
    pub open spec fn bench_from(self, index: usize) -> RunView {
        if index < self.benches.len() {
            self.to(RecipePhase::Bench { index })
        } else {
            self.after_benches()
        }
    }

    /// What follows when the first evals were dealt with.
    pub open spec fn eval_from(self, index: usize) -> RunView {
        if index < self.evals.len() {
            self.to(RecipePhase::Eval { index })
        } else {
            self.bench_from(0)
        }
    }

    /// The run after the sources were prepared: without them no server is started.
    pub open spec fn prepared(
        self,
        outcome: Result<(), Seq<char>>,
        interrupted: bool,
        now: u128,
    ) -> RunView {
        let bound = OperationBound {
            kind: BoundKind::Unbounded { started_at: self.sources_began },
        };
        let cause = if outcome is Ok {
            OperationTerminalCause::Succeeded
        } else if interrupted {
            OperationTerminalCause::Interrupted
        } else {
            OperationTerminalCause::Failed
        };
        let timed = RecipeView {
            source_preparation_timing: if self.record.data_assets.len() > 0 {
                Some(
                    bound.timing_at(now, "before_first_source_preparation_effect"@, cause),
                )
            } else {
                self.record.source_preparation_timing
            },
            ..self.record
        };
        match outcome {
            Ok(()) => self.with(
                RecipeView {
                    source_preparation_completed: true,
                    serving_launch_attempted: true,
                    ..timed
                },
            ).to(RecipePhase::Launch),
            Err(error) => self.with(timed).and_error(
                "measurement source preparation failed before serving launch: "@ + error,
            ).eval_from(0),
        }
    }

    /// The run after the server was started.
    pub open spec fn started(self, outcome: Result<(), Seq<char>>) -> RunView {
        match outcome {
            Ok(()) => RunView {
                server_started: true,
                ..self.with(
                    RecipeView { server_status: Some(ServerStatus::Running), ..self.record },
                )
            }.eval_from(0),
            Err(error) => self.with(
                RecipeView { server_status: Some(ServerStatus::Failed), ..self.record },
            ).and_error("server start failed: "@ + error).eval_from(0),
        }
    }

    /// Why the next workload is skipped, where it is.
    pub open spec fn skipped(self, interrupted: bool, gated: bool) -> Option<SkipReason> {
        if !self.server_started {
            Some(SkipReason::NoServer)
        } else if interrupted {
            Some(SkipReason::Interrupted)
        } else if gated && !self.gate_succeeded {
            Some(SkipReason::Gate)
        } else {
            None
        }
    }

    /// The run after an eval: the gating one lets the benches run where it succeeded
    /// and its result is accepted.
    pub open spec fn evaluated(self, index: usize, outcome: Result<WorkloadOutcome, String>) -> RunView {
        let plan = self.evals[index as int];
        let gate = self.gate == Some(plan);
        match outcome {
            Ok(record) => RunView {
                gate_succeeded: if gate {
                    record.status == WorkloadStatus::Succeeded && record.passed == Some(true)
                } else {
                    self.gate_succeeded
                },
                ..self.with(
                    RecipeView {
                        evals: self.record.evals.push(
                            WorkloadView {
                                definition_id: plan,
                                id: record.id@,
                                status: record.status,
                            },
                        ),
                        ..self.record
                    },
                )
            },
            Err(error) => RunView {
                gate_succeeded: if gate {
                    false
                } else {
                    self.gate_succeeded
                },
                ..self.with(
                    RecipeView {
                        evals: self.record.evals.push(
                            WorkloadView {
                                definition_id: plan,
                                id: workload_id(self.record.id, "-eval-"@, index as nat, plan),
                                status: WorkloadStatus::Failed,
                            },
                        ),
                        ..self.record
                    },
                ).and_error("Eval "@ + debug_text(plan) + " failed: "@ + error@)
            },
        }.eval_from((index + 1) as usize)
    }

    /// The run after a bench.
    pub open spec fn benched(self, index: usize, outcome: Result<WorkloadOutcome, String>) -> RunView {
        let plan = self.benches[index as int];
        match outcome {
            Ok(record) => self.with(
                RecipeView {
                    benches: self.record.benches.push(
                        WorkloadView {
                            definition_id: plan,
                            id: record.id@,
                            status: record.status,
                        },
                    ),
                    ..self.record
                },
            ),
            Err(error) => self.with(
                RecipeView {
                    benches: self.record.benches.push(
                        WorkloadView {
                            definition_id: plan,
                            id: workload_id(self.record.id, "-bench-"@, index as nat, plan),
                            status: WorkloadStatus::Failed,
                        },
                    ),
                    ..self.record
                },
            ).and_error("Bench "@ + debug_text(plan) + " failed: "@ + error@),
        }.bench_from((index + 1) as usize)
    }

    /// The run after its server was stopped or looked at: a stop that failed is an
    /// error of the recipe.
    pub open spec fn ended(self, outcome: Result<ServerEnd, String>, stopping: bool) -> RunView {
        match outcome {
            Ok(end) => self.with(
                RecipeView {
                    server_status: Some(end.status),
                    cleanup: Some(
                        RecipeCleanupView {
                            server_record_id: self.record.server_id,
                            status: Some(end.status),
                            verified: end.verified,
                            error: text_of(end.error),
                        },
                    ),
                    ..self.record
                },
            ),
            Err(error) => {
                let noted = self.with(
                    RecipeView {
                        cleanup: Some(
                            RecipeCleanupView {
                                server_record_id: self.record.server_id,
                                status: Some(ServerStatus::Failed),
                                verified: false,
                                error: Some(error@),
                            },
                        ),
                        ..self.record
                    },
                );
                if stopping {
                    noted.and_error("server cleanup failed: "@ + error@)
                } else {
                    noted
                }
            },
        }.to(RecipePhase::Finish)
    }

    /// Everything that a recipe is for was seen: a server that started, without an
    /// interruption or an error, every workload succeeded, and the server is known to
    /// be gone.
    pub open spec fn success(self) -> bool {
        &&& self.server_started
        &&& !self.record.interrupted
        &&& self.record.errors.len() == 0
        &&& forall|i: int|
            0 <= i < self.record.evals.len() ==> (#[trigger] self.record.evals[i]).status
                == WorkloadStatus::Succeeded
        &&& forall|i: int|
            0 <= i < self.record.benches.len() ==> (#[trigger] self.record.benches[i]).status
                == WorkloadStatus::Succeeded
        &&& self.record.cleanup is Some
        &&& self.record.cleanup->0.verified
    }

    /// Whether the record is stored once an action was done.
    pub open spec fn stored_after(self, done: RecipeAction) -> bool {
        match done {
            RecipeAction::PrepareSources => true,
            RecipeAction::StartServer => self.server_started,
            RecipeAction::RunEval { .. } => true,
            RecipeAction::SkipEval { .. } => true,
            RecipeAction::RunBench { .. } => true,
            RecipeAction::SkipBench { .. } => true,
            RecipeAction::Finish => self.phase is Over,
            _ => false,
        }
    }

    /// The run at its end. Without a clock it is not finished, and that is told.
    pub open spec fn finished(self, interrupted: bool, clock: Result<u64, Seq<char>>) -> RunView {
        let noted = self.with(RecipeView { interrupted, ..self.record });
        let status = if noted.success() {
            RecipeStatus::Succeeded
        } else {
            RecipeStatus::Failed
        };
        match clock {
            Ok(millis) => noted.with(
                RecipeView { status, finished_unix_ms: Some(millis), ..noted.record },
            ).to(RecipePhase::Over),
            Err(error) => RunView {
                message: "system clock is before Unix epoch: "@ + error,
                ..noted.with(RecipeView { status, ..noted.record })
            }.to(RecipePhase::Unfinished),
        }
    }

    /// The run after an event.
    pub open spec fn next(self, event: RecipeEvent) -> RunView {
        match (self.phase, event) {
            (
                RecipePhase::Sources,
                RecipeEvent::Prepared { outcome, interrupted, now },
            ) => self.prepared(result_of(outcome), interrupted, now),
            (RecipePhase::Launch, RecipeEvent::Started { outcome }) => self.started(
                result_of(outcome),
            ),
            (RecipePhase::Eval { index }, RecipeEvent::Next { interrupted }) => RunView {
                skip: self.skipped(interrupted, false),
                ..self.to(RecipePhase::Evaluating { index })
            },
            (RecipePhase::Evaluating { index }, RecipeEvent::Measured { outcome }) => self.evaluated(
                index,
                outcome,
            ),
            (RecipePhase::Bench { index }, RecipeEvent::Next { interrupted }) => RunView {
                skip: self.skipped(interrupted, true),
                ..self.to(RecipePhase::Benching { index })
            },
            (RecipePhase::Benching { index }, RecipeEvent::Measured { outcome }) => self.benched(
                index,
                outcome,
            ),
            (RecipePhase::Stop, RecipeEvent::Ended { outcome }) => self.ended(outcome, true),
            (RecipePhase::Inspect, RecipeEvent::Ended { outcome }) => self.ended(outcome, false),
            (
                RecipePhase::Finish,
                RecipeEvent::Finished { interrupted, clock },
            ) => self.finished(interrupted, result_of(clock)),
            _ => self,
        }
    }
}

impl RecipeRun {
    /// A run of a recipe that begins with a new record.
    pub fn new(record: RecipeRecord, measurements: Measurements, sources_began: u128) -> (r: Self)
        requires
            record@.evals.len() == 0,
            record@.benches.len() == 0,
        ensures
            r@.wf(),
            r@ == (RunView {
                record: record@,
                evals: texts(measurements.evals@),
                benches: texts(measurements.benches@),
                gate: text_of(measurements.gate),
                phase: RecipePhase::Sources,
                sources_began,
                server_started: false,
                gate_succeeded: measurements.gate is None,
                skip: None,
                message: Seq::empty(),
            }),
    {
        let gate_succeeded: bool = measurements.gate.is_none();
        let evals: usize = measurements.evals.len();
        let benches: usize = measurements.benches.len();
        assert(texts(measurements.evals@).len() == evals);
        assert(texts(measurements.benches@).len() == benches);
        let message = String::new();
        assert(message@ =~= Seq::empty());
        RecipeRun {
            record,
            measurements,
            phase: RecipePhase::Sources,
            sources_began,
            server_started: false,
            gate_succeeded,
            skip: None,
            message,
        }
    }

    /// What to do next.
    pub fn action(&self) -> (r: RecipeAction)
        ensures
            r == self@.action(),
    {
        match self.phase {
            RecipePhase::Sources => RecipeAction::PrepareSources,
            RecipePhase::Launch => RecipeAction::StartServer,
            RecipePhase::Eval { index } => RecipeAction::Eval { index },
            RecipePhase::Evaluating { index } => match self.skip {
                Some(reason) => RecipeAction::SkipEval { index, reason },
                None => RecipeAction::RunEval { index },
            },
            RecipePhase::Bench { index } => RecipeAction::Bench { index },
            RecipePhase::Benching { index } => match self.skip {
                Some(reason) => RecipeAction::SkipBench { index, reason },
                None => RecipeAction::RunBench { index },
            },
            RecipePhase::Stop => RecipeAction::StopServer,
            RecipePhase::Inspect => RecipeAction::InspectServer,
            RecipePhase::Finish => RecipeAction::Finish,
            RecipePhase::Over => RecipeAction::Over,
            RecipePhase::Unfinished => RecipeAction::Report,
        }
    }

    /// The identity of the record of an eval.
    pub fn eval_id(&self, index: usize) -> (r: String)
        requires
            index < self@.evals.len(),
        ensures
            r@ == workload_id(
                self@.record.id,
                "-eval-"@,
                index as nat,
                self@.evals[index as int],
            ),
    {
        assert(self@.evals[index as int] == self.measurements.evals@[index as int]@);
        make_workload_id(
            self.record.id.as_str(),
            "-eval-",
            index,
            self.measurements.evals[index].as_str(),
        )
    }

    /// The identity of the record of a bench.
    pub fn bench_id(&self, index: usize) -> (r: String)
        requires
            index < self@.benches.len(),
        ensures
            r@ == workload_id(
                self@.record.id,
                "-bench-"@,
                index as nat,
                self@.benches[index as int],
            ),
    {
        assert(self@.benches[index as int] == self.measurements.benches@[index as int]@);
        make_workload_id(
            self.record.id.as_str(),
            "-bench-",
            index,
            self.measurements.benches[index].as_str(),
        )
    }

    fn push_error(&mut self, error: String)
        ensures
            final(self)@ == old(self)@.and_error(error@),
    {
        let ghost before = self.record.errors@;
        self.record.errors.push(error);
        assert(texts(self.record.errors@) =~= texts(before).push(error@));
    }

    fn bench_from(&mut self, index: usize)
        ensures
            final(self)@ == old(self)@.bench_from(index),
    {
        assert(texts(self.measurements.benches@).len() == self.measurements.benches@.len());
        if index < self.measurements.benches.len() {
            self.phase = RecipePhase::Bench { index };
        } else if self.server_started {
            self.phase = RecipePhase::Stop;
        } else if self.record.serving_launch_attempted {
            self.phase = RecipePhase::Inspect;
        } else {
            self.phase = RecipePhase::Finish;
        }
    }

    fn eval_from(&mut self, index: usize)
        ensures
            final(self)@ == old(self)@.eval_from(index),
    {
        assert(texts(self.measurements.evals@).len() == self.measurements.evals@.len());
        if index < self.measurements.evals.len() {
            self.phase = RecipePhase::Eval { index };
        } else {
            self.bench_from(0);
        }
    }

    fn take_prepared(&mut self, outcome: Result<(), String>, interrupted: bool, now: u128)
        ensures
            final(self)@ == old(self)@.prepared(result_of(outcome), interrupted, now),
    {
        assert(self@.record.data_assets.len() == self.record.data_assets@.len());
        if self.record.data_assets.len() > 0 {
            let bound = OperationBound::unbounded(self.sources_began);
            let cause = match &outcome {
                Ok(()) => OperationTerminalCause::Succeeded,
                Err(_) => if interrupted {
                    OperationTerminalCause::Interrupted
                } else {
                    OperationTerminalCause::Failed
                },
            };
            self.record.source_preparation_timing = Some(
                bound.timing(now, "before_first_source_preparation_effect", cause),
            );
        }
        match outcome {
            Ok(()) => {
                self.record.source_preparation_completed = true;
                self.record.serving_launch_attempted = true;
                self.phase = RecipePhase::Launch;
            },
            Err(error) => {
                self.push_error(
                    cat2(
                        "measurement source preparation failed before serving launch: ",
                        error.as_str(),
                    ),
                );
                self.eval_from(0);
            },
        }
    }

    fn take_started(&mut self, outcome: Result<(), String>)
        ensures
            final(self)@ == old(self)@.started(result_of(outcome)),
    {
        match outcome {
            Ok(()) => {
                self.server_started = true;
                self.record.server.status = Some(ServerStatus::Running);
            },
            Err(error) => {
                self.record.server.status = Some(ServerStatus::Failed);
                self.push_error(cat2("server start failed: ", error.as_str()));
            },
        }
        self.eval_from(0);
    }

    fn why_skip(&self, interrupted: bool, gated: bool) -> (r: Option<SkipReason>)
        ensures
            r == self@.skipped(interrupted, gated),
    {
        if !self.server_started {
            Some(SkipReason::NoServer)
        } else if interrupted {
            Some(SkipReason::Interrupted)
        } else if gated && !self.gate_succeeded {
            Some(SkipReason::Gate)
        } else {
            None
        }
    }

    fn take_evaluated(&mut self, index: usize, outcome: Result<WorkloadOutcome, String>)
        requires
            index < old(self)@.evals.len() <= usize::MAX,
        ensures
            final(self)@ == old(self)@.evaluated(index, outcome),
    {
        let failed_id = self.eval_id(index);
        assert(self@.evals[index as int] == self.measurements.evals@[index as int]@);
        let plan = self.measurements.evals[index].clone();
        let gate: bool = match &self.measurements.gate {
            Some(gate) => same(gate.as_str(), plan.as_str()),
            None => false,
        };
        let ghost before = self.record.evals@;
        match outcome {
            Ok(record) => {
                if gate {
                    self.gate_succeeded = record.status == WorkloadStatus::Succeeded
                        && match record.passed {
                        Some(passed) => passed,
                        None => false,
                    };
                }
                let child = WorkloadRecordRef {
                    definition_id: plan,
                    id: record.id,
                    status: record.status,
                };
                self.record.evals.push(child);
                assert(views_of(self.record.evals@) =~= views_of(before).push(child@));
            },
            Err(error) => {
                if gate {
                    self.gate_succeeded = false;
                }
                let message = cat4(
                    "Eval ",
                    debug(plan.as_str()).as_str(),
                    " failed: ",
                    error.as_str(),
                );
                let child = WorkloadRecordRef {
                    definition_id: plan,
                    id: failed_id,
                    status: WorkloadStatus::Failed,
                };
                self.record.evals.push(child);
                assert(views_of(self.record.evals@) =~= views_of(before).push(child@));
                self.push_error(message);
            },
        }
        self.eval_from(index + 1);
    }

    fn take_benched(&mut self, index: usize, outcome: Result<WorkloadOutcome, String>)
        requires
            index < old(self)@.benches.len() <= usize::MAX,
        ensures
            final(self)@ == old(self)@.benched(index, outcome),
    {
        let failed_id = self.bench_id(index);
        assert(self@.benches[index as int] == self.measurements.benches@[index as int]@);
        let plan = self.measurements.benches[index].clone();
        let ghost before = self.record.benches@;
        match outcome {
            Ok(record) => {
                let child = WorkloadRecordRef {
                    definition_id: plan,
                    id: record.id,
                    status: record.status,
                };
                self.record.benches.push(child);
                assert(views_of(self.record.benches@) =~= views_of(before).push(child@));
            },
            Err(error) => {
                let message = cat4(
                    "Bench ",
                    debug(plan.as_str()).as_str(),
                    " failed: ",
                    error.as_str(),
                );
                let child = WorkloadRecordRef {
                    definition_id: plan,
                    id: failed_id,
                    status: WorkloadStatus::Failed,
                };
                self.record.benches.push(child);
                assert(views_of(self.record.benches@) =~= views_of(before).push(child@));
                self.push_error(message);
            },
        }
        self.bench_from(index + 1);
    }

    fn take_ended(&mut self, outcome: Result<ServerEnd, String>, stopping: bool)
        ensures
            final(self)@ == old(self)@.ended(outcome, stopping),
    {
        let server_record_id = self.record.server.id.clone();
        match outcome {
            Ok(end) => {
                self.record.server.status = Some(end.status);
                self.record.cleanup = Some(
                    RecipeCleanupEvidence {
                        server_record_id,
                        status: Some(end.status),
                        verified: end.verified,
                        error: end.error,
                    },
                );
            },
            Err(error) => {
                let message = cat2("server cleanup failed: ", error.as_str());
                self.record.cleanup = Some(
                    RecipeCleanupEvidence {
                        server_record_id,
                        status: Some(ServerStatus::Failed),
                        verified: false,
                        error: Some(error),
                    },
                );
                if stopping {
                    self.push_error(message);
                }
            },
        }
        self.phase = RecipePhase::Finish;
    }

    fn all_succeeded(list: &Vec<WorkloadRecordRef>) -> (r: bool)
        ensures
            r == forall|i: int|
                0 <= i < list@.len() ==> (#[trigger] views_of(list@)[i]).status
                    == WorkloadStatus::Succeeded,
    {
        let mut i: usize = 0;
        while i < list.len()
            invariant
                i <= list@.len(),
                forall|j: int|
                    0 <= j < i ==> (#[trigger] views_of(list@)[j]).status
                        == WorkloadStatus::Succeeded,
            decreases list@.len() - i,
        {
            assert(views_of(list@)[i as int] == list@[i as int]@);
            if list[i].status != WorkloadStatus::Succeeded {
                return false;
            }
            i += 1;
        }
        true
    }

    fn succeeded(&self) -> (r: bool)
        ensures
            r == self@.success(),
    {
        let cleaned: bool = match &self.record.cleanup {
            Some(cleanup) => cleanup.verified,
            None => false,
        };
        assert(texts(self.record.errors@).len() == self.record.errors@.len());
        self.server_started && !self.record.interrupted && self.record.errors.len() == 0
            && Self::all_succeeded(&self.record.evals) && Self::all_succeeded(&self.record.benches)
            && cleaned
    }

    /// Whether the record is stored once an action was done.
    pub fn stores_after(&self, done: RecipeAction) -> (r: bool)
        ensures
            r == self@.stored_after(done),
    {
        match done {
            RecipeAction::PrepareSources => true,
            RecipeAction::StartServer => self.server_started,
            RecipeAction::RunEval { .. } => true,
            RecipeAction::SkipEval { .. } => true,
            RecipeAction::RunBench { .. } => true,
            RecipeAction::SkipBench { .. } => true,
            RecipeAction::Finish => match self.phase {
                RecipePhase::Over => true,
                _ => false,
            },
            _ => false,
        }
    }

    /// The run stays in order through every step.
    proof fn lemma_next_is_wf(before: RunView, event: RecipeEvent)
        requires
            before.wf(),
            before.expects(event),
        ensures
            before.next(event).wf(),
    {
    }

    /// One step of running a recipe: what came of the step before, and what to do
    /// next.
    pub fn run(&mut self, event: RecipeEvent) -> (r: RecipeAction)
        requires
            old(self)@.wf(),
            old(self)@.expects(event),
        ensures
            final(self)@.wf(),
            final(self)@ == old(self)@.next(event),
            r == final(self)@.action(),
    {
        proof {
            RecipeRun::lemma_next_is_wf(self@, event);
        }
        match event {
            RecipeEvent::Prepared { outcome, interrupted, now } => {
                self.take_prepared(outcome, interrupted, now);
            },
            RecipeEvent::Started { outcome } => {
                self.take_started(outcome);
            },
            RecipeEvent::Next { interrupted } => match self.phase {
                RecipePhase::Eval { index } => {
                    self.skip = self.why_skip(interrupted, false);
                    self.phase = RecipePhase::Evaluating { index };
                },
                RecipePhase::Bench { index } => {
                    self.skip = self.why_skip(interrupted, true);
                    self.phase = RecipePhase::Benching { index };
                },
                _ => {},
            },
            RecipeEvent::Measured { outcome } => match self.phase {
                RecipePhase::Evaluating { index } => {
                    self.take_evaluated(index, outcome);
                },
                RecipePhase::Benching { index } => {
                    self.take_benched(index, outcome);
                },
                _ => {},
            },
            RecipeEvent::Ended { outcome } => {
                let stopping: bool = match self.phase {
                    RecipePhase::Stop => true,
                    _ => false,
                };
                self.take_ended(outcome, stopping);
            },
            RecipeEvent::Finished { interrupted, clock } => {
                self.record.interrupted = interrupted;
                self.record.status = if self.succeeded() {
                    RecipeStatus::Succeeded
                } else {
                    RecipeStatus::Failed
                };
                match clock {
                    Ok(millis) => {
                        self.record.finished_unix_ms = Some(millis);
                        self.phase = RecipePhase::Over;
                    },
                    Err(error) => {
                        self.message = cat2("system clock is before Unix epoch: ", error.as_str());
                        self.phase = RecipePhase::Unfinished;
                    },
                }
            },
        }
        self.action()
    }
}

// ---------------------------------------------------------------------------
// Laws

/// A recipe succeeds exactly where a server started, nothing was interrupted or went
/// wrong, every workload succeeded, and the server is known to be gone.
pub proof fn law_recipe_succeeds_only_when_everything_did(
    run: RunView,
    interrupted: bool,
    clock: Result<u64, Seq<char>>,
)
    ensures
        run.finished(interrupted, clock).record.status == RecipeStatus::Succeeded <==> {
            &&& run.server_started
            &&& !interrupted
            &&& run.record.errors.len() == 0
            &&& forall|i: int|
                0 <= i < run.record.evals.len() ==> (#[trigger] run.record.evals[i]).status
                    == WorkloadStatus::Succeeded
            &&& forall|i: int|
                0 <= i < run.record.benches.len() ==> (#[trigger] run.record.benches[i]).status
                    == WorkloadStatus::Succeeded
            &&& run.record.cleanup matches Some(cleanup) && cleanup.verified
        },
        run.finished(interrupted, clock).record.status != RecipeStatus::Succeeded ==> run.finished(
            interrupted,
            clock,
        ).record.status == RecipeStatus::Failed,
        run.finished(interrupted, clock).record.interrupted == interrupted,
{
}

/// A recipe that is over has the time at which it finished; one that could not be
/// finished is neither over nor stored, and tells why.
pub proof fn law_over_recipe_is_finished(run: RunView, interrupted: bool, clock: Result<u64, Seq<char>>)
    ensures
        run.finished(interrupted, clock).action() is Over <==> clock is Ok,
        clock matches Ok(millis) ==> run.finished(interrupted, clock).record.finished_unix_ms == Some(
            millis,
        ) && run.finished(interrupted, clock).stored_after(RecipeAction::Finish),
        clock matches Err(error) ==> run.finished(interrupted, clock).action() is Report && !run.finished(
            interrupted,
            clock,
        ).stored_after(RecipeAction::Finish) && run.finished(interrupted, clock).message
            == "system clock is before Unix epoch: "@ + error,
{
}

/// No bench is run unless the gating eval, where there is one, was accepted.
pub proof fn law_no_bench_is_run_behind_a_closed_gate(run: RunView, interrupted: bool)
    requires
        run.skipped(interrupted, true) is None,
    ensures
        run.gate_succeeded,
        run.server_started,
        !interrupted,
{
}

/// A gating eval that did not succeed, or whose result is not accepted, keeps the
/// benches from running.
pub proof fn law_gate_opens_only_by_passing(
    run: RunView,
    index: usize,
    outcome: Result<WorkloadOutcome, String>,
)
    requires
        index < run.evals.len(),
        run.gate == Some(run.evals[index as int]),
    ensures
        run.evaluated(index, outcome).gate_succeeded <==> outcome is Ok && outcome->Ok_0.status
            == WorkloadStatus::Succeeded && outcome->Ok_0.passed == Some(true),
{
}

/// An eval that does not gate opens and closes nothing, whatever comes of it, and neither
/// does any event that is not the outcome of an eval.
pub proof fn law_only_the_gating_eval_moves_the_gate(run: RunView, event: RecipeEvent)
    requires
        run.wf(),
        run.expects(event),
        !(run.phase matches RecipePhase::Evaluating { index } && run.gate == Some(
            run.evals[index as int],
        )),
    ensures
        run.next(event).gate_succeeded == run.gate_succeeded,
{
}

/// Every workload of a recipe has its entry once the recipe is over, whether it was
/// run or skipped.
pub proof fn law_every_workload_is_recorded(run: RunView)
    requires
        run.wf(),
        run.phase is Over,
    ensures
        run.record.evals.len() == run.evals.len(),
        run.record.benches.len() == run.benches.len(),
{
}

/// Without its sources a recipe starts no server and runs no workload.
pub proof fn law_no_sources_no_server(
    run: RunView,
    error: Seq<char>,
    interrupted: bool,
    now: u128,
    later: bool,
)
    requires
        run.wf(),
        run.phase is Sources,
    ensures
        !(run.prepared(Err(error), interrupted, now).phase is Launch),
        !run.prepared(Err(error), interrupted, now).server_started,
        run.prepared(Err(error), interrupted, now).skipped(later, false) == Some(
            SkipReason::NoServer,
        ),
{
}

// ---------------------------------------------------------------------------
// Whole runs

impl RunView {
    /// The run after events, one after the other.
    pub open spec fn after(self, events: Seq<RecipeEvent>) -> RunView
        decreases events.len(),
    {
        if events.len() == 0 {
            self
        } else {
            self.after(events.drop_last()).next(events.last())
        }
    }

    /// Each event can come where it comes.
    pub open spec fn takes(self, events: Seq<RecipeEvent>) -> bool {
        forall|i: int|
            0 <= i < events.len() ==> self.after(events.take(i)).expects(#[trigger] events[i])
    }

    /// Whether an event is the outcome of the gating eval.
    pub open spec fn gate_is_told(self, events: Seq<RecipeEvent>, i: int) -> bool {
        &&& 0 <= i < events.len()
        &&& self.after(events.take(i)).phase matches RecipePhase::Evaluating { index }
            && self.gate == Some(self.evals[index as int])
    }
}

/// What a recipe is to measure stays what it is, and the run stays as it must be.
proof fn lemma_after(run: RunView, events: Seq<RecipeEvent>)
    requires
        run.wf(),
        run.takes(events),
    ensures
        run.after(events).wf(),
        run.after(events).evals == run.evals,
        run.after(events).benches == run.benches,
        run.after(events).gate == run.gate,
        run.after(events).record.id == run.record.id,
        run.after(events).record.server_id == run.record.server_id,
    decreases events.len(),
{
    if events.len() > 0 {
        lemma_takes_fewer(run, events);
        lemma_after(run, events.drop_last());
        assert(events.take(events.len() - 1) =~= events.drop_last());
        assert(run.after(events.take(events.len() - 1)).expects(events[events.len() - 1]));
        lemma_next_wf(run.after(events.drop_last()), events.last());
    }
}

proof fn lemma_takes_fewer(run: RunView, events: Seq<RecipeEvent>)
    requires
        run.takes(events),
        events.len() > 0,
    ensures
        run.takes(events.drop_last()),
{
    let fewer = events.drop_last();
    assert forall|i: int| 0 <= i < fewer.len() implies run.after(fewer.take(i)).expects(
        #[trigger] fewer[i],
    ) by {
        assert(fewer.take(i) =~= events.take(i));
        assert(run.after(events.take(i)).expects(events[i]));
    }
}

proof fn lemma_next_wf(run: RunView, event: RecipeEvent)
    requires
        run.wf(),
        run.expects(event),
    ensures
        run.next(event).wf(),
        run.next(event).evals == run.evals,
        run.next(event).benches == run.benches,
        run.next(event).gate == run.gate,
        run.next(event).record.id == run.record.id,
        run.next(event).record.server_id == run.record.server_id,
{
}

/// Where a condition changes only when it is told, it is what was told last.
proof fn lemma_last_told(
    n: nat,
    free: bool,
    told: spec_fn(int) -> bool,
    passing: spec_fn(int) -> bool,
    opened: spec_fn(int) -> bool,
)
    requires
        opened(0) == free,
        free ==> forall|i: int| 0 <= i < n ==> !#[trigger] told(i),
        forall|i: int|
            0 <= i < n ==> opened(i + 1) == (if #[trigger] told(i) {
                passing(i)
            } else {
                opened(i)
            }),
    ensures
        opened(n as int) <==> {
            ||| free
            ||| exists|i: int| #[trigger]
                told(i) && 0 <= i < n && (forall|j: int| i < j < n ==> !#[trigger] told(j))
                    && passing(i)
        },
    decreases n,
{
    if n > 0 {
        let m = (n - 1) as nat;
        lemma_last_told(m, free, told, passing, opened);
        assert(opened(m as int + 1) == (if told(m as int) {
            passing(m as int)
        } else {
            opened(m as int)
        }));
        if told(m as int) {
            if !passing(m as int) {
                assert forall|i: int| #[trigger]
                    told(i) && 0 <= i < n && (forall|j: int|
                        i < j < n ==> !#[trigger] told(j)) implies !passing(i) by {
                    assert(i == m);
                }
            }
        } else if opened(m as int) && !free {
            let i = choose|i: int| #[trigger]
                told(i) && 0 <= i < m && (forall|j: int| i < j < m ==> !#[trigger] told(j))
                    && passing(i);
            assert(told(i) && forall|j: int| i < j < n ==> !#[trigger] told(j));
        } else if !opened(m as int) {
            assert forall|i: int| #[trigger]
                told(i) && 0 <= i < n && (forall|j: int|
                    i < j < n ==> !#[trigger] told(j)) implies !passing(i) by {
                assert(i < m);
                assert(forall|j: int| i < j < m ==> !#[trigger] told(j));
            }
        }
    }
}

/// An accepted success.
pub open spec fn accepted(event: RecipeEvent) -> bool {
    &&& event matches RecipeEvent::Measured { outcome: Ok(outcome) }
    &&& outcome.status == WorkloadStatus::Succeeded
    &&& outcome.passed == Some(true)
}

proof fn lemma_gate_step(run: RunView, events: Seq<RecipeEvent>, i: int)
    requires
        run.wf(),
        run.takes(events),
        0 <= i < events.len(),
    ensures
        run.after(events.take(i + 1)).gate_succeeded == (if run.gate_is_told(events, i) {
            accepted(events[i])
        } else {
            run.after(events.take(i)).gate_succeeded
        }),
{
    let fewer = events.take(i);
    let before = run.after(fewer);
    lemma_takes_first(run, events, i);
    lemma_after(run, fewer);
    assert(before.expects(events[i]));
    assert(events.take(i + 1).drop_last() =~= fewer);
    assert(events.take(i + 1).last() == events[i]);
    lemma_gate_next(before, events[i]);
}

proof fn lemma_gate_next(run: RunView, event: RecipeEvent)
    requires
        run.wf(),
        run.expects(event),
    ensures
        run.next(event).gate_succeeded == (if (run.phase matches RecipePhase::Evaluating { index }
            && run.gate == Some(run.evals[index as int])) {
            accepted(event)
        } else {
            run.gate_succeeded
        }),
{
}

proof fn lemma_takes_first(run: RunView, events: Seq<RecipeEvent>, n: int)
    requires
        run.takes(events),
        0 <= n <= events.len(),
    ensures
        run.takes(events.take(n)),
{
    let fewer = events.take(n);
    assert forall|i: int| 0 <= i < fewer.len() implies run.after(fewer.take(i)).expects(
        #[trigger] fewer[i],
    ) by {
        assert(fewer.take(i) =~= events.take(i));
        assert(run.after(events.take(i)).expects(events[i]));
    }
}

/// Over a whole run the way to the benches is open exactly where no eval gates them, or
/// the last outcome of the gating eval itself is a success that was accepted.
pub proof fn law_gate_is_that_of_the_gating_eval(run: RunView, events: Seq<RecipeEvent>)
    requires
        run.wf(),
        run.phase is Sources,
        run.gate_succeeded == (run.gate is None),
        run.takes(events),
    ensures
        run.after(events).gate_succeeded <==> {
            ||| run.gate is None
            ||| exists|i: int| #[trigger]
                run.gate_is_told(events, i) && (forall|j: int|
                    i < j < events.len() ==> !#[trigger] run.gate_is_told(events, j)) && accepted(
                    events[i],
                )
        },
{
    let told = |i: int| run.gate_is_told(events, i);
    let passing = |i: int| accepted(events[i]);
    let opened = |i: int| run.after(events.take(i)).gate_succeeded;
    assert(events.take(0) =~= Seq::empty());
    assert(events.take(events.len() as int) =~= events);
    assert forall|i: int| 0 <= i < events.len() implies opened(i + 1) == (if #[trigger] told(i) {
        passing(i)
    } else {
        opened(i)
    }) by {
        lemma_gate_step(run, events, i);
    }
    lemma_last_told(events.len(), run.gate is None, told, passing, opened);
    if exists|i: int| #[trigger]
        told(i) && 0 <= i < events.len() && (forall|j: int|
            i < j < events.len() ==> !#[trigger] told(j)) && passing(i) {
        let i = choose|i: int| #[trigger]
            told(i) && 0 <= i < events.len() && (forall|j: int|
                i < j < events.len() ==> !#[trigger] told(j)) && passing(i);
        assert(run.gate_is_told(events, i));
        assert forall|j: int| i < j < events.len() implies !#[trigger] run.gate_is_told(
            events,
            j,
        ) by {
            assert(!told(j));
        }
    }
    if exists|i: int| #[trigger]
        run.gate_is_told(events, i) && (forall|j: int|
            i < j < events.len() ==> !#[trigger] run.gate_is_told(events, j)) && accepted(
            events[i],
        ) {
        let i = choose|i: int| #[trigger]
            run.gate_is_told(events, i) && (forall|j: int|
                i < j < events.len() ==> !#[trigger] run.gate_is_told(events, j)) && accepted(
                events[i],
            );
        assert(told(i) && 0 <= i < events.len() && passing(i));
        assert forall|j: int| i < j < events.len() implies !#[trigger] told(j) by {
            assert(!run.gate_is_told(events, j));
        }
    }
}

/// A bench is run exactly where a server started, nothing interrupted the recipe, and
/// there is no gate or the last outcome of the gating eval itself is a success that
/// was accepted; else it is skipped, behind a closed gate for that reason.
pub proof fn law_bench_is_run_behind_an_open_gate(
    run: RunView,
    events: Seq<RecipeEvent>,
    interrupted: bool,
    index: usize,
)
    requires
        run.wf(),
        run.phase is Sources,
        run.gate_succeeded == (run.gate is None),
        run.takes(events),
        run.after(events).phase == (RecipePhase::Bench { index }),
    ensures
        ({
            let opened = {
                ||| run.gate is None
                ||| exists|i: int| #[trigger]
                    run.gate_is_told(events, i) && (forall|j: int|
                        i < j < events.len() ==> !#[trigger] run.gate_is_told(events, j))
                        && accepted(events[i])
            };
            let started = run.after(events).server_started;
            let next = run.after(events).next(RecipeEvent::Next { interrupted }).action();
            &&& started && !interrupted && opened <==> next == (RecipeAction::RunBench { index })
            &&& started && !interrupted && !opened <==> next == (RecipeAction::SkipBench {
                index,
                reason: SkipReason::Gate,
            })
            &&& started && interrupted <==> next == (RecipeAction::SkipBench {
                index,
                reason: SkipReason::Interrupted,
            })
            &&& !started <==> next == (RecipeAction::SkipBench {
                index,
                reason: SkipReason::NoServer,
            })
        }),
{
    law_gate_is_that_of_the_gating_eval(run, events);
    lemma_bench_next(run.after(events), interrupted, index);
}

proof fn lemma_bench_next(run: RunView, interrupted: bool, index: usize)
    requires
        run.phase == (RecipePhase::Bench { index }),
    ensures
        run.next(RecipeEvent::Next { interrupted }).action() == (if !run.server_started {
            RecipeAction::SkipBench { index, reason: SkipReason::NoServer }
        } else if interrupted {
            RecipeAction::SkipBench { index, reason: SkipReason::Interrupted }
        } else if !run.gate_succeeded {
            RecipeAction::SkipBench { index, reason: SkipReason::Gate }
        } else {
            RecipeAction::RunBench { index }
        }),
{
}

/// An eval is run exactly where a server started and nothing interrupted the recipe.
/// A gating eval never keeps another from running.
pub proof fn law_eval_is_run_on_a_server(run: RunView, interrupted: bool, index: usize)
    requires
        run.wf(),
        run.phase == (RecipePhase::Eval { index }),
    ensures
        ({
            let next = run.next(RecipeEvent::Next { interrupted }).action();
            &&& run.server_started && !interrupted <==> next == (RecipeAction::RunEval { index })
            &&& run.server_started && interrupted <==> next == (RecipeAction::SkipEval {
                index,
                reason: SkipReason::Interrupted,
            })
            &&& !run.server_started <==> next == (RecipeAction::SkipEval {
                index,
                reason: SkipReason::NoServer,
            })
        }),
{
}

/// The outcome of an eval is recorded once, at the end of the evals, for the eval that
/// was run; one that could not be run is recorded as failed, and tells why.
pub proof fn law_eval_is_recorded_as_it_came(
    run: RunView,
    index: usize,
    outcome: Result<WorkloadOutcome, String>,
)
    requires
        run.wf(),
        run.phase == (RecipePhase::Evaluating { index }),
    ensures
        ({
            let next = run.next(RecipeEvent::Measured { outcome });
            let entry = next.record.evals.last();
            &&& next.record.evals.len() == run.record.evals.len() + 1
            &&& next.record.evals.drop_last() == run.record.evals
            &&& next.record.benches == run.record.benches
            &&& entry.definition_id == run.evals[index as int]
            &&& (outcome matches Ok(told) ==> entry.id == told.id@ && entry.status == told.status
                && next.record.errors == run.record.errors)
            &&& outcome is Err ==> entry.status == WorkloadStatus::Failed
                && next.record.errors.len() == run.record.errors.len() + 1
                && next.record.errors.drop_last() == run.record.errors
            &&& index + 1 < run.evals.len() ==> next.action() == (RecipeAction::Eval {
                index: (index + 1) as usize,
            })
            &&& index + 1 == run.evals.len() && run.benches.len() > 0 ==> next.action() == (
            RecipeAction::Bench { index: 0 })
        }),
{
    let next = run.next(RecipeEvent::Measured { outcome });
    assert(next.record.evals.drop_last() =~= run.record.evals);
    if outcome is Err {
        assert(next.record.errors.drop_last() =~= run.record.errors);
    }
}

/// The outcome of a bench is recorded once, at the end of the benches, for the bench
/// that was run; one that could not be run is recorded as failed, and tells why.
pub proof fn law_bench_is_recorded_as_it_came(
    run: RunView,
    index: usize,
    outcome: Result<WorkloadOutcome, String>,
)
    requires
        run.wf(),
        run.phase == (RecipePhase::Benching { index }),
    ensures
        ({
            let next = run.next(RecipeEvent::Measured { outcome });
            let entry = next.record.benches.last();
            &&& next.record.benches.len() == run.record.benches.len() + 1
            &&& next.record.benches.drop_last() == run.record.benches
            &&& next.record.evals == run.record.evals
            &&& entry.definition_id == run.benches[index as int]
            &&& (outcome matches Ok(told) ==> entry.id == told.id@ && entry.status == told.status
                && next.record.errors == run.record.errors)
            &&& outcome is Err ==> entry.status == WorkloadStatus::Failed
                && next.record.errors.len() == run.record.errors.len() + 1
                && next.record.errors.drop_last() == run.record.errors
            &&& index + 1 < run.benches.len() ==> next.action() == (RecipeAction::Bench {
                index: (index + 1) as usize,
            })
            &&& index + 1 == run.benches.len() && run.server_started ==> next.action()
                == RecipeAction::StopServer
        }),
{
    let next = run.next(RecipeEvent::Measured { outcome });
    assert(next.record.benches.drop_last() =~= run.record.benches);
    if outcome is Err {
        assert(next.record.errors.drop_last() =~= run.record.errors);
    }
}

impl RunView {
    /// What became of a server whose launch was tried is known once the recipe is to be
    /// summed up, and not before; one that started is then stopped.
    pub open spec fn accounts_for(self, server_id: Seq<char>) -> bool {
        let over = self.phase is Finish || self.phase is Over || self.phase is Unfinished;
        &&& over ==> (self.record.serving_launch_attempted <==> self.record.cleanup is Some)
        &&& !over ==> self.record.cleanup is None
        &&& (self.record.cleanup matches Some(cleanup) ==> cleanup.server_record_id == server_id)
        &&& self.phase is Stop ==> self.server_started
        &&& self.phase is Inspect ==> !self.server_started && self.record.serving_launch_attempted
        &&& self.phase is Sources ==> !self.record.serving_launch_attempted
    }
}

proof fn lemma_accounts_next(run: RunView, event: RecipeEvent)
    requires
        run.wf(),
        run.expects(event),
        run.accounts_for(run.record.server_id),
    ensures
        run.next(event).accounts_for(run.record.server_id),
{
}

/// A server that was started is always stopped, and one whose launch was tried is
/// looked at: over a whole run, what became of it is known before the recipe is summed
/// up, and the record of it is kept. Without a launch there is nothing to know.
pub proof fn law_launched_server_is_accounted_for(run: RunView, events: Seq<RecipeEvent>)
    requires
        run.wf(),
        run.phase is Sources,
        run.record.cleanup is None,
        !run.record.serving_launch_attempted,
        run.takes(events),
    ensures
        run.after(events).accounts_for(run.record.server_id),
    decreases events.len(),
{
    if events.len() > 0 {
        let fewer = events.drop_last();
        assert(events.take(events.len() - 1) =~= fewer);
        lemma_takes_fewer(run, events);
        law_launched_server_is_accounted_for(run, fewer);
        lemma_after(run, fewer);
        let before = run.after(fewer);
        assert(before.expects(events[events.len() - 1]));
        lemma_accounts_next(before, events.last());
    }
}

/// What is known of the end of a server is recorded as it was told; a stop that failed
/// is an error of the recipe, and leaves the server unverified.
pub proof fn law_end_of_a_server_is_recorded(
    run: RunView,
    outcome: Result<ServerEnd, String>,
)
    requires
        run.wf(),
        run.phase is Stop || run.phase is Inspect,
    ensures
        ({
            let next = run.next(RecipeEvent::Ended { outcome });
            &&& next.action() == RecipeAction::Finish
            &&& next.record.cleanup matches Some(cleanup) && cleanup.server_record_id
                == run.record.server_id && match outcome {
                Ok(end) => cleanup.verified == end.verified && cleanup.status == Some(end.status)
                    && cleanup.error == text_of(end.error) && next.record.server_status == Some(
                    end.status,
                ) && next.record.errors == run.record.errors,
                Err(error) => !cleanup.verified && cleanup.status == Some(ServerStatus::Failed)
                    && cleanup.error == Some(error@) && next.record.errors.len()
                    == run.record.errors.len() + (if run.phase is Stop {
                    1int
                } else {
                    0int
                }),
            }
        }),
{
}

/// The preparation of sources is timed exactly where there are sources to prepare. A
/// server is launched exactly where the preparation succeeded; a failure is an error.
pub proof fn law_server_is_launched_with_its_sources(
    run: RunView,
    outcome: Result<(), Seq<char>>,
    interrupted: bool,
    now: u128,
)
    requires
        run.wf(),
        run.phase is Sources,
        run.record.source_preparation_timing is None,
    ensures
        ({
            let next = run.prepared(outcome, interrupted, now);
            &&& next.record.source_preparation_timing is Some <==> run.record.data_assets.len() > 0
            &&& (next.record.source_preparation_timing matches Some(timing) ==> {
                &&& outcome is Ok ==> timing.terminal_cause == OperationTerminalCause::Succeeded
                &&& outcome is Err && interrupted ==> timing.terminal_cause
                    == OperationTerminalCause::Interrupted
                &&& outcome is Err && !interrupted ==> timing.terminal_cause
                    == OperationTerminalCause::Failed
            })
            &&& outcome is Ok <==> next.action() == RecipeAction::StartServer
            &&& outcome is Ok ==> next.record.source_preparation_completed
                && next.record.serving_launch_attempted && next.record.errors == run.record.errors
            &&& outcome is Err ==> next.record.source_preparation_completed
                == run.record.source_preparation_completed && next.record.serving_launch_attempted
                == run.record.serving_launch_attempted && next.record.errors.len()
                == run.record.errors.len() + 1
        }),
{
}

/// A server that started runs and is measured; one that did not is failed, with an
/// error of the recipe, and is not taken for started.
pub proof fn law_start_of_a_server_is_recorded(run: RunView, outcome: Result<(), Seq<char>>)
    requires
        run.wf(),
        run.phase is Launch,
    ensures
        ({
            let next = run.started(outcome);
            &&& next.server_started <==> outcome is Ok
            &&& outcome is Ok ==> next.record.server_status == Some(ServerStatus::Running)
                && next.record.errors == run.record.errors
            &&& outcome is Err ==> next.record.server_status == Some(ServerStatus::Failed)
                && next.record.errors.len() == run.record.errors.len() + 1
            &&& run.evals.len() > 0 ==> next.action() == (RecipeAction::Eval { index: 0 })
        }),
{
}

/// The records of two workloads of a recipe, or of an eval and a bench of it, have
/// different identities, and each begins with that of the recipe.
pub proof fn law_workloads_have_identities_of_their_own(
    recipe: Seq<char>,
    a: nat,
    b: nat,
    plan_a: Seq<char>,
    plan_b: Seq<char>,
)
    ensures
        a != b ==> workload_id(recipe, "-eval-"@, a, plan_a) != workload_id(
            recipe,
            "-eval-"@,
            b,
            plan_b,
        ),
        a != b ==> workload_id(recipe, "-bench-"@, a, plan_a) != workload_id(
            recipe,
            "-bench-"@,
            b,
            plan_b,
        ),
        workload_id(recipe, "-eval-"@, a, plan_a) != workload_id(recipe, "-bench-"@, b, plan_b),
        workload_id(recipe, "-eval-"@, a, plan_a).take(recipe.len() as int) == recipe,
        workload_id(recipe, "-bench-"@, a, plan_a).take(recipe.len() as int) == recipe,
{
    reveal_strlit("-eval-");
    reveal_strlit("-bench-");
    let one = workload_id(recipe, "-eval-"@, a, plan_a);
    let other = workload_id(recipe, "-bench-"@, b, plan_b);
    assert(one[recipe.len() as int + 1] == 'e');
    assert(other[recipe.len() as int + 1] == 'b');
    assert(one.take(recipe.len() as int) =~= recipe);
    assert(workload_id(recipe, "-bench-"@, a, plan_a).take(recipe.len() as int) =~= recipe);
    if a != b {
        lemma_ids_differ(recipe, "-eval-"@, a, b, plan_a, plan_b);
        lemma_ids_differ(recipe, "-bench-"@, a, b, plan_a, plan_b);
    }
}

proof fn lemma_ids_differ(
    recipe: Seq<char>,
    kind: Seq<char>,
    a: nat,
    b: nat,
    plan_a: Seq<char>,
    plan_b: Seq<char>,
)
    requires
        a != b,
    ensures
        workload_id(recipe, kind, a, plan_a) != workload_id(recipe, kind, b, plan_b),
{
    reveal_strlit("-");
    let head = recipe + kind;
    let na = padded(decimal(a), 3);
    let nb = padded(decimal(b), 3);
    let one = workload_id(recipe, kind, a, plan_a);
    let other = workload_id(recipe, kind, b, plan_b);
    crate::text::law_padding_keeps_the_number(a, 3);
    crate::text::law_padding_keeps_the_number(b, 3);
    if one == other {
        let at = head.len() as int;
        assert(one[at + na.len()] == '-');
        assert(other[at + nb.len()] == '-');
        if na.len() < nb.len() {
            assert(other[at + na.len()] == nb[na.len() as int]);
            assert(crate::text::digit(nb[na.len() as int]));
        } else if nb.len() < na.len() {
            assert(one[at + nb.len()] == na[nb.len() as int]);
            assert(crate::text::digit(na[nb.len() as int]));
        } else {
            assert(one.subrange(at, at + na.len()) =~= na);
            assert(other.subrange(at, at + nb.len()) =~= nb);
        }
    }
}

/// A new recipe runs under an identity of its own, made of the recipe, and names that of
/// its server, made of the server, both of the moment and the process at which it begins;
/// nothing of it has been done.
pub proof fn law_new_recipe_has_done_nothing(
    r: Result<RecipeRecord, InferlabError>,
    new: NewRecipe,
    unix_ms: u64,
    assets: Seq<AttemptView>,
)
    requires
        begins(r, new, unix_ms, assets),
    ensures
        r is Ok ==> new.recipe is Some,
        new.recipe is Some && unix_ms <= crate::calendar::LAST_UNIX_MS ==> r is Ok,
        r matches Ok(record) ==> {
            let now = crate::record::timestamp_text(unix_ms);
            &&& record@.id == crate::record::identity_text(
                RecordIdentity::Recipe { recipe: new.recipe->0, case: new.case },
                now,
                new.pid,
            )
            &&& record.server.id@ == crate::record::identity_text(
                RecordIdentity::Serve { server: new.server, case: new.case },
                now,
                new.pid,
            )
            &&& record@.status is Running && record@.started_unix_ms == unix_ms
            &&& record@.finished_unix_ms is None && record@.server_status is None
            &&& record@.inferlab_version == new.version@ && record@.data_assets == assets
            &&& record@.evals.len() == 0 && record@.benches.len() == 0
            &&& record@.errors.len() == 0 && !record@.interrupted && record@.cleanup is None
            &&& !record@.source_preparation_completed && !record@.serving_launch_attempted
        },
{
}

/// A process is known to be gone by its last cleanup; one that was never cleaned up is gone
/// only where it was never started.
pub proof fn law_last_cleanup_tells_whether_a_process_is_gone(
    evidence: EvidenceView,
    last: crate::server::cleanup::CleanupView,
)
    ensures
        evidence.cleanup.len() == 0 ==> (process_gone(evidence) <==> evidence.handle is None),
        process_gone(EvidenceView { cleanup: evidence.cleanup.push(last), ..evidence })
            == last.verified,
        last_error(EvidenceView { cleanup: evidence.cleanup.push(last), ..evidence }) == last.error,
{
}

/// An attempt is found by its id, the first of them where several share it.
pub proof fn law_attempt_is_found_by_its_id(attempts: Seq<AttemptView>, id: Seq<char>, i: int)
    requires
        0 <= i < attempts.len(),
        attempts[i].attempt_id == id,
        forall|j: int| 0 <= j < i ==> (#[trigger] attempts[j]).attempt_id != id,
    ensures
        attempt_place(attempts, id) == Some(i),
{
    let p = |k: int| attempts[k].attempt_id == id;
    assert(p(i));
    assert forall|j: int| 0 <= j < i implies !(#[trigger] p(j)) by {
        assert(attempts[j].attempt_id != id);
    }
    crate::search::lemma_first_index_is(attempts.len(), p, i);
}

/// The cleanup of a server is complete exactly where each of its processes is gone: by its
/// last cleanup, or because it never had a handle. The error that is told is that of a last
/// cleanup, and one is told wherever there is one.
pub proof fn law_cleanup_is_complete_with_every_process(
    record: RecordView,
    gone: bool,
    error: Option<Seq<char>>,
    i: int,
)
    requires
        summed_up(record, gone, error),
        record.wf(),
        0 <= i < record.processes.len(),
    ensures
        gone && record.process_evidence[i].cleanup.len() > 0
            ==> record.process_evidence[i].cleanup.last().verified,
        gone && record.process_evidence[i].cleanup.len() == 0 ==> record.process_evidence[i].handle
            is None,
        !gone ==> exists|j: int|
            0 <= j < record.processes.len() && !process_gone(#[trigger] record.process_evidence[j]),
        record.process_evidence[i].cleanup.len() > 0
            && record.process_evidence[i].cleanup.last().error is Some ==> error is Some,
        error is Some ==> exists|j: int|
            0 <= j < record.processes.len() && last_error(#[trigger] record.process_evidence[j])
                == error,
{
    assert(record.process_evidence[i] == record.process_evidence[i]);
    if error is Some {
        let j = choose|j: int| #[trigger]
            first_with_error(record, j) && last_error(record.process_evidence[j]) == error;
        assert(last_error(record.process_evidence[j]) == error);
    }
}

} // verus!
