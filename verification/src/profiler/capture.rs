//! Captures: arming the targets, running windows, ending the collections and
//! holding the reports to the plan.

use crate::error::InferlabError;
use crate::paths::{debug_path, debug_path_text, parent, parent_of};
use crate::process_group::CommandOutput;
use crate::profiler::plan::{
    compile_plan, plan_fault, planned, refuses_profiling, target_plans_of, windows_of,
    CapturePlanRecord, CaptureTargetPlan, CaptureWindowPlan, PlanView,
};
use crate::profiler::target::{
    nsys_start_argv, nsys_stop_argv, start_words, ProfilerControl, ProfilerTargetRecord,
};
use crate::search::{
    first_index, first_some, lemma_first_index_is, lemma_first_some_none, lemma_first_some_stays,
};
use crate::server::probe::line_status;
use crate::shell::{quoted, shell_quote};
use crate::text::{
    cat2, cat3, cat4, cat5, cat6, cat7, contains, contains_text, copy_list, copy_text, debug,
    debug_text, decimal, decode_lossy, join, joined, list_contains, lists, lossy_text,
    parse_unsigned, same, text_of, texts, to_decimal, trim, trimmed, words,
};
use vstd::prelude::*;
use vstd::string::*;

verus! {

// ---------------------------------------------------------------------------
// Actions

/// What came of an action of a capture.
#[derive(Debug)]
pub enum CaptureActionRecord {
    Command {
        target_id: String,
        operation: String,
        argv: Vec<String>,
        exit_code: Option<i32>,
        stdout: String,
        stderr: String,
        succeeded: bool,
    },
    Http {
        process_id: String,
        operation: String,
        url: String,
        status: Option<u16>,
        error: Option<String>,
        succeeded: bool,
    },
}

/// What came of an action of a capture, as values.
pub enum ActionView {
    Command {
        target_id: Seq<char>,
        operation: Seq<char>,
        argv: Seq<Seq<char>>,
        exit_code: Option<i32>,
        stdout: Seq<char>,
        stderr: Seq<char>,
        succeeded: bool,
    },
    Http {
        process_id: Seq<char>,
        operation: Seq<char>,
        url: Seq<char>,
        status: Option<u16>,
        error: Option<Seq<char>>,
        succeeded: bool,
    },
}

impl View for CaptureActionRecord {
    type V = ActionView;

    open spec fn view(&self) -> ActionView {
        match *self {
            CaptureActionRecord::Command {
                target_id,
                operation,
                argv,
                exit_code,
                stdout,
                stderr,
                succeeded,
            } => ActionView::Command {
                target_id: target_id@,
                operation: operation@,
                argv: texts(argv@),
                exit_code,
                stdout: stdout@,
                stderr: stderr@,
                succeeded,
            },
            CaptureActionRecord::Http {
                process_id,
                operation,
                url,
                status,
                error,
                succeeded,
            } => ActionView::Http {
                process_id: process_id@,
                operation: operation@,
                url: url@,
                status,
                error: text_of(error),
                succeeded,
            },
        }
    }
}

impl ActionView {
    /// The action succeeded.
    pub open spec fn ok(self) -> bool {
        match self {
            ActionView::Command { succeeded, .. } => succeeded,
            ActionView::Http { succeeded, .. } => succeeded,
        }
    }

    /// What the action says went wrong.
    pub open spec fn reason(self) -> Option<Seq<char>> {
        match self {
            ActionView::Command { stderr, .. } => if trimmed(stderr).len() == 0 {
                None
            } else {
                Some(trimmed(stderr))
            },
            ActionView::Http { error, .. } => error,
        }
    }

    /// What went wrong, with a word where the action says none.
    pub open spec fn reason_or(self, otherwise: Seq<char>) -> Seq<char> {
        match self.reason() {
            Some(text) => text,
            None => otherwise,
        }
    }

    /// The collection had ended before.
    pub open spec fn already_final(self) -> bool {
        match self {
            ActionView::Command { stderr, .. } => contains_text(
                stderr,
                "Collection stop is not allowed in this state."@,
            ),
            ActionView::Http { .. } => false,
        }
    }

    /// The collection ended.
    pub open spec fn finalized(self) -> bool {
        self.ok() || self.already_final()
    }
}

/// What came of actions.
pub open spec fn actions_of(actions: Seq<CaptureActionRecord>) -> Seq<ActionView> {
    Seq::new(actions.len(), |i: int| actions[i]@)
}

impl CaptureActionRecord {
    /// Whether the action succeeded.
    pub fn succeeded(&self) -> (r: bool)
        ensures
            r == self@.ok(),
    {
        match self {
            CaptureActionRecord::Command { succeeded, .. } => *succeeded,
            CaptureActionRecord::Http { succeeded, .. } => *succeeded,
        }
    }

    /// What the action says went wrong.
    pub fn error(&self) -> (r: Option<String>)
        ensures
            text_of(r) == self@.reason(),
    {
        match self {
            CaptureActionRecord::Command { stderr, .. } => {
                let text = trim(stderr.as_str());
                if text.is_empty() {
                    None
                } else {
                    Some(text.to_owned())
                }
            },
            CaptureActionRecord::Http { error, .. } => copy_text(error),
        }
    }

    fn error_or(&self, otherwise: String) -> (r: String)
        ensures
            r@ == self@.reason_or(otherwise@),
    {
        match self.error() {
            Some(text) => text,
            None => otherwise,
        }
    }
}

/// Whether the collection had ended before.
pub fn collection_already_finalized(action: &CaptureActionRecord) -> (r: bool)
    ensures
        r == action@.already_final(),
{
    match action {
        CaptureActionRecord::Command { stderr, .. } => contains(
            stderr.as_str(),
            "Collection stop is not allowed in this state.",
        ),
        CaptureActionRecord::Http { .. } => false,
    }
}

/// Whether the collection ended, by this action or before it.
pub fn finalization_succeeded(action: &CaptureActionRecord) -> (r: bool)
    ensures
        r == action@.finalized(),
{
    action.succeeded() || collection_already_finalized(action)
}

/// What came of a command on a target's machine.
pub open spec fn command_told(
    target: Seq<char>,
    operation: Seq<char>,
    argv: Seq<Seq<char>>,
    answer: Result<CommandOutput, String>,
) -> ActionView {
    match answer {
        Ok(output) => ActionView::Command {
            target_id: target,
            operation,
            argv,
            exit_code: output.exit_code,
            stdout: lossy_text(output.stdout@),
            stderr: lossy_text(output.stderr@),
            succeeded: output.success,
        },
        Err(error) => ActionView::Command {
            target_id: target,
            operation,
            argv,
            exit_code: None,
            stdout: Seq::empty(),
            stderr: error@,
            succeeded: false,
        },
    }
}

/// What came of a command on a target's machine.
pub fn command_action(
    target: &ProfilerTargetRecord,
    operation: &str,
    argv: Vec<String>,
    answer: &Result<CommandOutput, String>,
) -> (r: CaptureActionRecord)
    ensures
        r@ == command_told(target.process_id@, operation@, texts(argv@), *answer),
{
    match answer {
        Ok(output) => CaptureActionRecord::Command {
            target_id: target.process_id.clone(),
            operation: operation.to_owned(),
            argv,
            exit_code: output.exit_code,
            stdout: decode_lossy(output.stdout.as_slice()),
            stderr: decode_lossy(output.stderr.as_slice()),
            succeeded: output.success,
        },
        Err(error) => {
            let nothing = String::new();
            assert(nothing@ =~= Seq::empty());
            CaptureActionRecord::Command {
                target_id: target.process_id.clone(),
                operation: operation.to_owned(),
                argv,
                exit_code: None,
                stdout: nothing,
                stderr: error.clone(),
                succeeded: false,
            }
        },
    }
}

/// The words of a list, quoted.
pub open spec fn quoted_list(words: Seq<Seq<char>>) -> Seq<Seq<char>> {
    Seq::new(words.len(), |i: int| quoted(words[i]))
}

/// The script that runs a command in a directory of another machine.
pub fn ssh_control_script(cwd: &str, argv: &[String]) -> (r: String)
    ensures
        r@ == "cd "@ + quoted(cwd@) + " && exec "@ + joined(quoted_list(texts(argv@)), " "@),
{
    let mut parts: Vec<String> = Vec::new();
    let ghost all = quoted_list(texts(argv@));
    let mut i: usize = 0;
    assert(texts(parts@) =~= all.take(0));
    while i < argv.len()
        invariant
            i <= argv@.len(),
            all == quoted_list(texts(argv@)),
            texts(parts@) == all.take(i as int),
        decreases argv@.len() - i,
    {
        let ghost before = texts(parts@);
        let word = shell_quote(argv[i].as_str());
        parts.push(word);
        proof {
            assert(texts(argv@)[i as int] == argv@[i as int]@);
            assert(texts(parts@) =~= before.push(word@));
            assert(all.take(i + 1) =~= all.take(i as int).push(all[i as int]));
        }
        i += 1;
    }
    assert(all.take(i as int) =~= all);
    cat4("cd ", shell_quote(cwd).as_str(), " && exec ", join(parts.as_slice(), " ").as_str())
}

// ---------------------------------------------------------------------------
// Window control

/// A request that opens or closes a window.
#[derive(Debug)]
pub struct WindowRequest {
    pub process_id: String,
    pub host: String,
    pub port: u16,
    pub operation: String,
    pub path: String,
    pub deadline_seconds: u64,
}

/// A request that opens or closes a window, as values.
pub struct RequestView {
    pub process_id: Seq<char>,
    pub host: Seq<char>,
    pub port: u16,
    pub operation: Seq<char>,
    pub path: Seq<char>,
    pub deadline_seconds: u64,
}

impl View for WindowRequest {
    type V = RequestView;

    open spec fn view(&self) -> RequestView {
        RequestView {
            process_id: self.process_id@,
            host: self.host@,
            port: self.port,
            operation: self.operation@,
            path: self.path@,
            deadline_seconds: self.deadline_seconds,
        }
    }
}

/// Requests, as values.
pub open spec fn requests_of(requests: Seq<WindowRequest>) -> Seq<RequestView> {
    Seq::new(requests.len(), |i: int| requests[i]@)
}

/// The process that opens and closes the windows of a target.
pub open spec fn controller(target: ProfilerTargetRecord) -> Seq<char> {
    match target.control {
        ProfilerControl::Http { process_id, .. } => process_id@,
    }
}

/// The request that opens or closes the windows of a target.
pub open spec fn request_of(target: ProfilerTargetRecord, start: bool) -> RequestView {
    match target.control {
        ProfilerControl::Http {
            process_id,
            endpoint,
            start_path,
            stop_path,
            deadline_seconds,
        } => RequestView {
            process_id: process_id@,
            host: endpoint.host@,
            port: endpoint.port,
            operation: if start {
                "start-range"@
            } else {
                "stop-range"@
            },
            path: if start {
                start_path@
            } else {
                stop_path@
            },
            deadline_seconds,
        },
    }
}

/// Whether a target before the place has the same controller.
pub open spec fn controlled_before(targets: Seq<ProfilerTargetRecord>, i: int) -> bool {
    exists|j: int| 0 <= j < i && controller(#[trigger] targets[j]) == controller(targets[i])
}

/// The requests for the controllers that are named: one for each, by its first
/// target.
pub open spec fn requests_for(
    targets: Seq<ProfilerTargetRecord>,
    n: int,
    start: bool,
    named: spec_fn(Seq<char>) -> bool,
) -> Seq<RequestView>
    decreases n,
{
    if n <= 0 {
        Seq::empty()
    } else {
        let before = requests_for(targets, n - 1, start, named);
        if named(controller(targets[n - 1])) && !controlled_before(targets, n - 1) {
            before.push(request_of(targets[n - 1], start))
        } else {
            before
        }
    }
}

/// Every controller.
pub open spec fn everyone() -> spec_fn(Seq<char>) -> bool {
    |id: Seq<char>| true
}

/// The controllers in a list.
pub open spec fn listed(ids: Seq<String>) -> spec_fn(Seq<char>) -> bool {
    |id: Seq<char>| lists(ids, id)
}

fn request(target: &ProfilerTargetRecord, start: bool) -> (r: WindowRequest)
    ensures
        r@ == request_of(*target, start),
{
    match &target.control {
        ProfilerControl::Http {
            process_id,
            endpoint,
            start_path,
            stop_path,
            deadline_seconds,
        } => WindowRequest {
            process_id: process_id.clone(),
            host: endpoint.host.clone(),
            port: endpoint.port,
            operation: if start {
                "start-range".to_owned()
            } else {
                "stop-range".to_owned()
            },
            path: if start {
                start_path.clone()
            } else {
                stop_path.clone()
            },
            deadline_seconds: *deadline_seconds,
        },
    }
}

fn controller_id(target: &ProfilerTargetRecord) -> (r: &str)
    ensures
        r@ == controller(*target),
{
    match &target.control {
        ProfilerControl::Http { process_id, .. } => process_id.as_str(),
    }
}

fn is_controlled_before(targets: &[ProfilerTargetRecord], at: usize) -> (r: bool)
    requires
        at < targets@.len(),
    ensures
        r == controlled_before(targets@, at as int),
{
    let id = controller_id(&targets[at]);
    let mut j: usize = 0;
    while j < at
        invariant
            j <= at < targets@.len(),
            id@ == controller(targets@[at as int]),
            forall|k: int| 0 <= k < j ==> controller(#[trigger] targets@[k]) != id@,
        decreases at - j,
    {
        if same(controller_id(&targets[j]), id) {
            assert(controller(targets@[j as int]) == controller(targets@[at as int]));
            return true;
        }
        j += 1;
    }
    false
}

/// The requests for the controllers in a list, one for each.
pub fn http_actions_for(targets: &[ProfilerTargetRecord], start: bool, process_ids: &[String]) -> (r:
    Vec<WindowRequest>)
    ensures
        requests_of(r@) == requests_for(
            targets@,
            targets@.len() as int,
            start,
            listed(process_ids@),
        ),
{
    let ghost named = listed(process_ids@);
    let mut out: Vec<WindowRequest> = Vec::new();
    let mut i: usize = 0;
    assert(requests_of(out@) =~= requests_for(targets@, 0, start, named));
    while i < targets.len()
        invariant
            i <= targets@.len(),
            named == listed(process_ids@),
            requests_of(out@) == requests_for(targets@, i as int, start, named),
        decreases targets@.len() - i,
    {
        let wanted: bool = list_contains(process_ids, controller_id(&targets[i]));
        assert(wanted == named(controller(targets@[i as int])));
        if wanted && !is_controlled_before(targets, i) {
            let ghost before = requests_of(out@);
            let next = request(&targets[i], start);
            out.push(next);
            assert(requests_of(out@) =~= before.push(next@));
        }
        i += 1;
    }
    out
}

/// The requests for every controller, one for each.
pub fn http_actions(targets: &[ProfilerTargetRecord], start: bool) -> (r: Vec<WindowRequest>)
    ensures
        requests_of(r@) == requests_for(targets@, targets@.len() as int, start, everyone()),
{
    let mut out: Vec<WindowRequest> = Vec::new();
    let mut i: usize = 0;
    assert(requests_of(out@) =~= requests_for(targets@, 0, start, everyone()));
    while i < targets.len()
        invariant
            i <= targets@.len(),
            requests_of(out@) == requests_for(targets@, i as int, start, everyone()),
        decreases targets@.len() - i,
    {
        assert(everyone()(controller(targets@[i as int])));
        if !is_controlled_before(targets, i) {
            let ghost before = requests_of(out@);
            let next = request(&targets[i], start);
            out.push(next);
            assert(requests_of(out@) =~= before.push(next@));
        }
        i += 1;
    }
    out
}

/// What came of a request.
pub open spec fn request_told(request: RequestView, result: Result<u16, String>) -> ActionView {
    let url = "http://"@ + request.host + ":"@ + decimal(request.port as nat) + request.path;
    match result {
        Ok(status) => ActionView::Http {
            process_id: request.process_id,
            operation: request.operation,
            url,
            status: Some(status),
            error: None,
            succeeded: 200 <= status < 300,
        },
        Err(error) => ActionView::Http {
            process_id: request.process_id,
            operation: request.operation,
            url,
            status: None,
            error: Some(error@),
            succeeded: false,
        },
    }
}

/// What came of a request.
pub fn http_action(request: &WindowRequest, result: &Result<u16, String>) -> (r: CaptureActionRecord)
    ensures
        r@ == request_told(request@, *result),
{
    let url = cat5(
        "http://",
        request.host.as_str(),
        ":",
        to_decimal(request.port as u64).as_str(),
        request.path.as_str(),
    );
    match result {
        Ok(status) => CaptureActionRecord::Http {
            process_id: request.process_id.clone(),
            operation: request.operation.clone(),
            url,
            status: Some(*status),
            error: None,
            succeeded: 200 <= *status && *status < 300,
        },
        Err(error) => CaptureActionRecord::Http {
            process_id: request.process_id.clone(),
            operation: request.operation.clone(),
            url,
            status: None,
            error: Some(error.clone()),
            succeeded: false,
        },
    }
}

/// The text of a request.
pub fn post_request(request: &WindowRequest) -> (r: String)
    ensures
        r@ == "POST "@ + request.path@ + " HTTP/1.1\r\nHost: "@ + request.host@ + ":"@ + decimal(
            request.port as nat,
        ) + "\r\nContent-Length: 0\r\nConnection: close\r\n\r\n"@,
{
    cat7(
        "POST ",
        request.path.as_str(),
        " HTTP/1.1\r\nHost: ",
        request.host.as_str(),
        ":",
        to_decimal(request.port as u64).as_str(),
        "\r\nContent-Length: 0\r\nConnection: close\r\n\r\n",
    )
}

/// The status in the first line of a response.
pub fn post_status(status_line: &str) -> (r: Result<u16, String>)
    ensures
        match line_status(status_line@) {
            Some(status) => r == Ok::<u16, String>(status as u16),
            None => r matches Err(found) && found@ == "invalid profiler HTTP status line "@
                + debug_text(status_line@),
        },
{
    let fields = words(status_line);
    assert(texts(fields@).len() == fields@.len());
    let mut status: Option<u64> = None;
    if fields.len() >= 2 {
        assert(texts(fields@)[1] == fields@[1]@);
        status = parse_unsigned(fields[1].as_str(), u16::MAX as u64);
    }
    match status {
        Some(code) => Ok(code as u16),
        None => Err(
            cat2("invalid profiler HTTP status line ", debug(status_line).as_str()),
        ),
    }
}

// ---------------------------------------------------------------------------
// Records

/// How a capture stands.
#[derive(Clone, Copy, Debug, PartialEq, Eq, Structural)]
pub enum CaptureStatus {
    Running,
    Succeeded,
    Failed,
}

/// A window that was run.
#[derive(Debug)]
pub struct CaptureWindowRecord {
    pub id: String,
    pub range_index: Option<usize>,
    pub start: Vec<CaptureActionRecord>,
    pub stop: Vec<CaptureActionRecord>,
    pub client_succeeded: bool,
    pub succeeded: bool,
    pub error: Option<String>,
}

/// A report that was looked for.
#[derive(Debug)]
pub struct CaptureReportRecord {
    pub process_id: String,
    pub role_id: String,
    pub window_id: String,
    pub range_index: Option<usize>,
    pub path: String,
    pub verified: bool,
    pub verification: CaptureActionRecord,
}

/// A capture.
#[derive(Debug)]
pub struct CaptureRecord {
    pub status: CaptureStatus,
    pub plan: Option<CapturePlanRecord>,
    pub arm: Vec<CaptureActionRecord>,
    pub windows: Vec<CaptureWindowRecord>,
    pub finalization: Vec<CaptureActionRecord>,
    pub reports: Vec<CaptureReportRecord>,
    pub error: Option<String>,
}

/// A window that was run, as values.
#[verifier::ext_equal]
pub struct WindowView {
    pub id: Seq<char>,
    pub range_index: Option<usize>,
    pub start: Seq<ActionView>,
    pub stop: Seq<ActionView>,
    pub client_succeeded: bool,
    pub succeeded: bool,
    pub error: Option<Seq<char>>,
}

impl View for CaptureWindowRecord {
    type V = WindowView;

    open spec fn view(&self) -> WindowView {
        WindowView {
            id: self.id@,
            range_index: self.range_index,
            start: actions_of(self.start@),
            stop: actions_of(self.stop@),
            client_succeeded: self.client_succeeded,
            succeeded: self.succeeded,
            error: text_of(self.error),
        }
    }
}

/// A report that was looked for, as values.
pub struct ReportView {
    pub process_id: Seq<char>,
    pub role_id: Seq<char>,
    pub window_id: Seq<char>,
    pub range_index: Option<usize>,
    pub path: Seq<char>,
    pub verified: bool,
    pub verification: ActionView,
}

impl View for CaptureReportRecord {
    type V = ReportView;

    open spec fn view(&self) -> ReportView {
        ReportView {
            process_id: self.process_id@,
            role_id: self.role_id@,
            window_id: self.window_id@,
            range_index: self.range_index,
            path: self.path@,
            verified: self.verified,
            verification: self.verification@,
        }
    }
}

/// Windows, as values.
pub open spec fn window_records_of(windows: Seq<CaptureWindowRecord>) -> Seq<WindowView> {
    Seq::new(windows.len(), |i: int| windows[i]@)
}

/// Reports, as values.
pub open spec fn reports_of(reports: Seq<CaptureReportRecord>) -> Seq<ReportView> {
    Seq::new(reports.len(), |i: int| reports[i]@)
}

/// A plan, where there is one, as values.
pub open spec fn plan_of(plan: Option<CapturePlanRecord>) -> Option<PlanView> {
    match plan {
        Some(found) => Some(found@),
        None => None,
    }
}

/// A capture, as values.
#[verifier::ext_equal]
pub struct CaptureView {
    pub status: CaptureStatus,
    pub plan: Option<PlanView>,
    pub arm: Seq<ActionView>,
    pub windows: Seq<WindowView>,
    pub finalization: Seq<ActionView>,
    pub reports: Seq<ReportView>,
    pub error: Option<Seq<char>>,
}

impl View for CaptureRecord {
    type V = CaptureView;

    open spec fn view(&self) -> CaptureView {
        CaptureView {
            status: self.status,
            plan: plan_of(self.plan),
            arm: actions_of(self.arm@),
            windows: window_records_of(self.windows@),
            finalization: actions_of(self.finalization@),
            reports: reports_of(self.reports@),
            error: text_of(self.error),
        }
    }
}

impl CaptureView {
    /// The capture after a fault: it failed, and the first fault is the one that
    /// counts.
    pub open spec fn fail(self, message: Seq<char>) -> CaptureView {
        CaptureView {
            status: CaptureStatus::Failed,
            error: match self.error {
                Some(first) => Some(first),
                None => Some(message),
            },
            ..self
        }
    }

    /// The capture after a fault, where there is one.
    pub open spec fn fail_where(self, message: Option<Seq<char>>) -> CaptureView {
        match message {
            Some(text) => self.fail(text),
            None => self,
        }
    }

    /// The capture at its end.
    pub open spec fn ended(self) -> CaptureView {
        CaptureView {
            status: if self.complete() {
                CaptureStatus::Succeeded
            } else {
                CaptureStatus::Failed
            },
            ..self
        }
    }

    /// Everything that was asked of the capture was seen.
    pub open spec fn complete(self) -> bool {
        &&& self.error is None
        &&& forall|i: int| 0 <= i < self.windows.len() ==> (#[trigger] self.windows[i]).succeeded
        &&& forall|i: int| 0 <= i < self.reports.len() ==> (#[trigger] self.reports[i]).verified
    }
}

/// A capture of nothing that failed.
pub open spec fn failed_capture(message: Seq<char>) -> CaptureView {
    CaptureView {
        status: CaptureStatus::Failed,
        plan: None,
        arm: Seq::empty(),
        windows: Seq::empty(),
        finalization: Seq::empty(),
        reports: Seq::empty(),
        error: Some(message),
    }
}

impl CaptureRecord {
    /// A capture of nothing that failed.
    pub fn failed(message: String) -> (r: Self)
        ensures
            r@ == failed_capture(message@),
    {
        let r = CaptureRecord {
            status: CaptureStatus::Failed,
            plan: None,
            arm: Vec::new(),
            windows: Vec::new(),
            finalization: Vec::new(),
            reports: Vec::new(),
            error: Some(message),
        };
        assert(r@ =~= failed_capture(message@));
        r
    }

    /// Whether the capture succeeded.
    pub fn succeeded(&self) -> (r: bool)
        ensures
            r == (self.status == CaptureStatus::Succeeded),
    {
        self.status == CaptureStatus::Succeeded
    }
}

fn copy_windows(windows: &Vec<CaptureWindowPlan>) -> (r: Vec<CaptureWindowPlan>)
    ensures
        windows_of(r@) == windows_of(windows@),
{
    let mut out: Vec<CaptureWindowPlan> = Vec::new();
    let mut i: usize = 0;
    while i < windows.len()
        invariant
            i <= windows@.len(),
            out@.len() == i,
            forall|j: int|
                0 <= j < i ==> (#[trigger] out@[j]).id@ == windows@[j].id@ && out@[j].range_index
                    == windows@[j].range_index,
        decreases windows@.len() - i,
    {
        out.push(
            CaptureWindowPlan { id: windows[i].id.clone(), range_index: windows[i].range_index },
        );
        i += 1;
    }
    assert(windows_of(out@) =~= windows_of(windows@));
    out
}

fn copy_targets(targets: &Vec<CaptureTargetPlan>) -> (r: Vec<CaptureTargetPlan>)
    ensures
        target_plans_of(r@) == target_plans_of(targets@),
{
    let mut out: Vec<CaptureTargetPlan> = Vec::new();
    let mut i: usize = 0;
    while i < targets.len()
        invariant
            i <= targets@.len(),
            out@.len() == i,
            forall|j: int| 0 <= j < i ==> (#[trigger] out@[j])@ == targets@[j]@,
        decreases targets@.len() - i,
    {
        let t = &targets[i];
        let copy = CaptureTargetPlan {
            process_id: t.process_id.clone(),
            role_id: t.role_id.clone(),
            replica_id: t.replica_id.clone(),
            replica_index: t.replica_index,
            rank: t.rank,
            session: t.session.clone(),
            expected_range_count: t.expected_range_count,
            output_base: t.output_base.clone(),
            reports: copy_list(t.reports.as_slice()),
        };
        assert(copy@ == t@);
        out.push(copy);
        i += 1;
    }
    assert(target_plans_of(out@) =~= target_plans_of(targets@));
    out
}

fn copy_plan(plan: &CapturePlanRecord) -> (r: CapturePlanRecord)
    ensures
        r@ == plan@,
{
    CapturePlanRecord {
        server_record_id: plan.server_record_id.clone(),
        workload_id: plan.workload_id.clone(),
        control: plan.control,
        windows: copy_windows(&plan.windows),
        targets: copy_targets(&plan.targets),
    }
}

// ---------------------------------------------------------------------------
// Sessions

/// A capture that runs.
#[derive(Debug)]
pub struct CaptureSession {
    pub targets: Vec<ProfilerTargetRecord>,
    pub plan: CapturePlanRecord,
    pub record: CaptureRecord,
    /// The first failure to close a window, held until the reports are looked at:
    /// the capture succeeds despite it where every report is there, and the fault
    /// of a missing report carries it where one is not.
    pub stop_failure: Option<String>,
}

/// A capture that runs, as values.
#[verifier::ext_equal]
pub struct SessionView {
    pub targets: Seq<ProfilerTargetRecord>,
    pub plan: PlanView,
    pub record: CaptureView,
    pub stop_failure: Option<Seq<char>>,
}

impl View for CaptureSession {
    type V = SessionView;

    open spec fn view(&self) -> SessionView {
        SessionView {
            targets: self.targets@,
            plan: self.plan@,
            record: self.record@,
            stop_failure: text_of(self.stop_failure),
        }
    }
}

impl SessionView {
    /// The plan names a report of every window on every target.
    pub open spec fn wf(self) -> bool {
        &&& self.plan.targets.len() == self.targets.len()
        &&& forall|i: int|
            0 <= i < self.plan.targets.len() ==> (#[trigger] self.plan.targets[i]).reports.len()
                == self.plan.windows.len()
    }

    /// The session with another record.
    pub open spec fn with(self, record: CaptureView) -> SessionView {
        SessionView { record, ..self }
    }

    /// The session after a fault.
    pub open spec fn fail(self, message: Seq<char>) -> SessionView {
        self.with(self.record.fail(message))
    }
}

/// A step of arming a target.
#[derive(Clone, Copy, Debug, PartialEq, Eq, Structural)]
pub enum ArmStage {
    /// The directory of its reports is made.
    Prepare,
    /// Its collection is started.
    Start,
}

/// What to do next to arm a capture.
#[derive(Clone, Copy, Debug, PartialEq, Eq, Structural)]
pub enum ArmNext {
    Run { target: usize, stage: ArmStage },
    Armed,
    Failed,
}

impl SessionView {
    /// The words of a step of arming, or why there are none.
    pub open spec fn arm_words(self, target: int, stage: ArmStage) -> Result<
        Seq<Seq<char>>,
        Seq<char>,
    > {
        let plan = self.plan.targets[target];
        match stage {
            ArmStage::Prepare => match parent_of(plan.output_base) {
                Some(folder) => Ok(seq!["mkdir"@, "-p"@, folder]),
                None => Err(
                    "capture output "@ + debug_path_text(plan.output_base) + " has no parent"@,
                ),
            },
            ArmStage::Start => match plan.expected_range_count {
                Some(count) => Ok(
                    start_words(self.targets[target], plan.output_base, count as nat),
                ),
                None => Err(
                    "profiler target "@ + debug_text(self.targets[target].process_id@)
                        + " has no static range count"@,
                ),
            },
        }
    }

    /// What came of a step of arming.
    pub open spec fn arm_action(
        self,
        target: int,
        stage: ArmStage,
        argv: Seq<Seq<char>>,
        answer: Result<CommandOutput, String>,
    ) -> ActionView {
        command_told(
            self.targets[target].process_id@,
            match stage {
                ArmStage::Prepare => "prepare-output"@,
                ArmStage::Start => "start-range-collection"@,
            },
            argv,
            answer,
        )
    }

    /// The fault of a step of arming that says none.
    pub open spec fn arm_fault(self, target: int, stage: ArmStage) -> Seq<char> {
        let what = match stage {
            ArmStage::Prepare => "failed to prepare profiler target "@,
            ArmStage::Start => "failed to arm profiler target "@,
        };
        what + debug_text(self.targets[target].process_id@)
    }

    /// The session after a step of arming.
    pub open spec fn armed(self, target: int, stage: ArmStage, action: ActionView) -> SessionView {
        let recorded = CaptureView { arm: self.record.arm.push(action), ..self.record };
        self.with(
            if action.ok() {
                recorded
            } else {
                recorded.fail(action.reason_or(self.arm_fault(target, stage)))
            },
        )
    }

    /// What follows a step of arming.
    pub open spec fn after_arm(self, target: int, stage: ArmStage, action: ActionView) -> ArmNext {
        if !action.ok() {
            ArmNext::Failed
        } else if stage == ArmStage::Prepare {
            ArmNext::Run { target: target as usize, stage: ArmStage::Start }
        } else if target + 1 < self.targets.len() {
            ArmNext::Run { target: (target + 1) as usize, stage: ArmStage::Prepare }
        } else {
            ArmNext::Armed
        }
    }

    /// Which of the windows has the id.
    pub open spec fn window_is(self, id: Seq<char>) -> spec_fn(int) -> bool {
        |i: int| self.plan.windows[i].0 == id
    }

    /// The range of the window with the id.
    pub open spec fn window_range(self, id: Seq<char>) -> Option<Option<usize>> {
        match first_index(self.plan.windows.len(), self.window_is(id)) {
            Some(i) => Some(self.plan.windows[i].1),
            None => None,
        }
    }
}

/// The first action that failed.
pub open spec fn first_failure(actions: Seq<ActionView>) -> Option<ActionView> {
    first_some(
        actions.len(),
        |i: int|
            if actions[i].ok() {
                None
            } else {
                Some(actions[i])
            },
    )
}

fn find_failure(actions: &Vec<CaptureActionRecord>) -> (r: Option<usize>)
    ensures
        match r {
            Some(i) => i < actions@.len() && first_failure(actions_of(actions@)) == Some(
                actions@[i as int]@,
            ) && !actions@[i as int]@.ok(),
            None => first_failure(actions_of(actions@)) is None,
        },
{
    let ghost all = actions_of(actions@);
    let ghost f = |i: int|
        if all[i].ok() {
            None
        } else {
            Some(all[i])
        };
    let mut i: usize = 0;
    while i < actions.len()
        invariant
            i <= actions@.len(),
            all == actions_of(actions@),
            f == (|i: int|
                if all[i].ok() {
                    None
                } else {
                    Some(all[i])
                }),
            first_some(i as nat, f) is None,
        decreases actions@.len() - i,
    {
        assert(all[i as int] == actions@[i as int]@);
        if !actions[i].succeeded() {
            proof {
                assert(f(i as int) == Some(all[i as int]));
                lemma_first_some_stays((i + 1) as nat, actions@.len(), f);
            }
            return Some(i);
        }
        assert(f(i as int) is None);
        i += 1;
    }
    None
}

/// Why a window could not be opened, where it could not.
pub open spec fn opening_fault(id: Seq<char>, start: Seq<ActionView>) -> Option<Seq<char>> {
    match first_failure(start) {
        Some(action) => Some(
            action.reason_or("failed to open capture window "@ + debug_text(id)),
        ),
        None => None,
    }
}

/// Why a window could not be opened, where it could not: the client runs only in a
/// window that every controller opened.
pub fn opening_failure(id: &str, start: &Vec<CaptureActionRecord>) -> (r: Option<String>)
    ensures
        text_of(r) == opening_fault(id@, actions_of(start@)),
{
    match find_failure(start) {
        Some(at) => Some(
            start[at].error_or(cat2("failed to open capture window ", debug(id).as_str())),
        ),
        None => None,
    }
}

/// The controllers that opened a window.
pub open spec fn opened(start: Seq<ActionView>, id: Seq<char>) -> bool {
    exists|i: int|
        0 <= i < start.len() && (#[trigger] start[i]).ok() && start[i] is Http
            && start[i]->Http_process_id == id
}

/// The requests that close a window: one for each controller that opened it.
pub open spec fn closing_requests(targets: Seq<ProfilerTargetRecord>, start: Seq<ActionView>) -> Seq<
    RequestView,
> {
    requests_for(targets, targets.len() as int, false, |id: Seq<char>| opened(start, id))
}

/// The requests that close a window: one for each controller that opened it.
pub fn stop_window(targets: &[ProfilerTargetRecord], start: &Vec<CaptureActionRecord>) -> (r: Vec<
    WindowRequest,
>)
    ensures
        requests_of(r@) == closing_requests(targets@, actions_of(start@)),
{
    let ghost all = actions_of(start@);
    let mut ids: Vec<String> = Vec::new();
    let mut i: usize = 0;
    while i < start.len()
        invariant
            i <= start@.len(),
            all == actions_of(start@),
            forall|id: Seq<char>|
                #![trigger lists(ids@, id)]
                lists(ids@, id) <==> opened(all.take(i as int), id),
        decreases start@.len() - i,
    {
        let ghost before = ids@;
        assert(all[i as int] == start@[i as int]@);
        let ghost was = all.take(i as int);
        let ghost now = all.take(i + 1);
        if start[i].succeeded() {
            if let CaptureActionRecord::Http { process_id, .. } = &start[i] {
                ids.push(process_id.clone());
            }
        }
        proof {
            assert forall|id: Seq<char>|
                #![trigger lists(ids@, id)]
                lists(ids@, id) <==> opened(now, id) by {
                assert(forall|j: int| 0 <= j < was.len() ==> was[j] == #[trigger] now[j]);
                if lists(ids@, id) {
                    let j = choose|j: int| 0 <= j < ids@.len() && (#[trigger] ids@[j])@ == id;
                    if j < before.len() {
                        assert(before[j]@ == id);
                        assert(lists(before, id));
                        let k = choose|k: int|
                            0 <= k < was.len() && (#[trigger] was[k]).ok() && was[k] is Http
                                && was[k]->Http_process_id == id;
                        assert(now[k] == was[k]);
                    } else {
                        assert(now[i as int].ok() && now[i as int]->Http_process_id == id);
                    }
                }
                if opened(now, id) {
                    let k = choose|k: int|
                        0 <= k < now.len() && (#[trigger] now[k]).ok() && now[k] is Http
                            && now[k]->Http_process_id == id;
                    if k < i {
                        assert(was[k] == now[k]);
                        assert(opened(was, id));
                        assert(lists(before, id));
                        let j = choose|j: int| 0 <= j < before.len() && (#[trigger] before[j])@ == id;
                        assert(ids@[j] == before[j]);
                    } else {
                        assert(ids@[ids@.len() - 1]@ == id);
                    }
                }
            }
        }
        i += 1;
    }
    assert(all.take(i as int) =~= all);
    let out = http_actions_for(targets, false, ids.as_slice());
    assert(listed(ids@) =~= (|id: Seq<char>| opened(all, id)));
    out
}

/// How the client of a window ended.
#[derive(Debug)]
pub enum ClientOutcome {
    /// It was not run.
    NotRun,
    Succeeded,
    Failed { error: String },
}

impl SessionView {
    /// The session after a window that could not be opened.
    pub open spec fn unopened(
        self,
        id: Seq<char>,
        range: Option<usize>,
        start: Seq<ActionView>,
        stop: Seq<ActionView>,
        message: Seq<char>,
    ) -> SessionView {
        let window = WindowView {
            id,
            range_index: range,
            start,
            stop,
            client_succeeded: false,
            succeeded: false,
            error: Some(message),
        };
        self.with(
            CaptureView { windows: self.record.windows.push(window), ..self.record },
        ).fail(message)
    }

    /// The session after a window that was opened: it fails where the client did,
    /// and a failure to close it is held for the reports.
    pub open spec fn ran(
        self,
        id: Seq<char>,
        range: Option<usize>,
        start: Seq<ActionView>,
        stop: Seq<ActionView>,
        error: Option<Seq<char>>,
    ) -> SessionView {
        let window = WindowView {
            id,
            range_index: range,
            start,
            stop,
            client_succeeded: error is None,
            succeeded: error is None,
            error,
        };
        let held = match (self.stop_failure, first_failure(stop)) {
            (Some(first), _) => Some(first),
            (None, Some(action)) => Some(
                action.reason_or("failed to close capture window "@ + debug_text(id)),
            ),
            (None, None) => None,
        };
        SessionView {
            record: CaptureView {
                windows: self.record.windows.push(window),
                ..self.record
            }.fail_where(error),
            stop_failure: held,
            ..self
        }
    }

    /// What came of ending the collection of a target.
    pub open spec fn finalization(self, i: int, answer: Result<CommandOutput, String>) -> ActionView {
        let target = self.targets[i];
        command_told(
            target.process_id@,
            "finalize-collection"@,
            seq![target.executable@, "stop"@, "--session="@ + target.session@],
            answer,
        )
    }

    /// The first collection that did not end.
    pub open spec fn finalization_fault(self, answers: Seq<Result<CommandOutput, String>>) -> Option<
        Seq<char>,
    > {
        first_some(
            answers.len(),
            |i: int|
                if self.finalization(i, answers[i]).finalized() {
                    None
                } else {
                    Some(
                        self.finalization(i, answers[i]).reason_or(
                            "failed to finalize target "@ + debug_text(self.targets[i].process_id@),
                        ),
                    )
                },
        )
    }

    /// The session after the collections ended.
    pub open spec fn collected(self, answers: Seq<Result<CommandOutput, String>>) -> SessionView {
        self.with(
            CaptureView {
                finalization: self.record.finalization + Seq::new(
                    answers.len(),
                    |i: int| self.finalization(i, answers[i]),
                ),
                ..self.record
            }.fail_where(self.finalization_fault(answers)),
        )
    }

    /// A report that was looked for.
    pub open spec fn report(self, t: int, w: int, answer: Result<CommandOutput, String>) -> ReportView {
        let target = self.targets[t];
        let path = self.plan.targets[t].reports[w];
        let verification = command_told(
            target.process_id@,
            "verify-report"@,
            seq!["test"@, "-f"@, path],
            answer,
        );
        ReportView {
            process_id: target.process_id@,
            role_id: target.role_id@,
            window_id: self.plan.windows[w].0,
            range_index: self.plan.windows[w].1,
            path,
            verified: verification.ok(),
            verification,
        }
    }

    /// The fault of a report that is missing.
    pub open spec fn missing(self, report: ReportView) -> Option<Seq<char>> {
        if report.verified {
            None
        } else {
            let message = "missing Nsight Systems report for target "@ + debug_text(
                report.process_id,
            ) + ", window "@ + debug_text(report.window_id) + ": "@ + report.path;
            Some(
                match self.stop_failure {
                    Some(failure) => message
                        + "; a window-closing control action had failed: "@ + failure,
                    None => message,
                },
            )
        }
    }

    /// The reports of a target.
    pub open spec fn reports_of_target(self, t: int, answers: Seq<Result<CommandOutput, String>>) -> Seq<
        ReportView,
    > {
        Seq::new(self.plan.windows.len(), |w: int| self.report(t, w, answers[w]))
    }

    /// The reports of the first targets.
    pub open spec fn reports_until(
        self,
        n: int,
        answers: Seq<Vec<Result<CommandOutput, String>>>,
    ) -> Seq<ReportView>
        decreases n,
    {
        if n <= 0 {
            Seq::empty()
        } else {
            self.reports_until(n - 1, answers) + self.reports_of_target(n - 1, answers[n - 1]@)
        }
    }

    /// The first report that is missing.
    pub open spec fn first_missing(self, reports: Seq<ReportView>) -> Option<Seq<char>> {
        first_some(reports.len(), |i: int| self.missing(reports[i]))
    }

    /// The session after the reports were looked for.
    pub open spec fn verified(self, answers: Seq<Vec<Result<CommandOutput, String>>>) -> SessionView {
        let found = self.reports_until(self.targets.len() as int, answers);
        self.with(
            CaptureView { reports: self.record.reports + found, ..self.record }.fail_where(
                self.first_missing(found),
            ),
        )
    }
}

/// One more report.
proof fn lemma_first_missing_step(session: SessionView, reports: Seq<ReportView>)
    requires
        reports.len() > 0,
    ensures
        session.first_missing(reports) == match session.first_missing(reports.drop_last()) {
            Some(text) => Some(text),
            None => session.missing(reports.last()),
        },
{
    let n = (reports.len() - 1) as nat;
    let f = |i: int| session.missing(reports[i]);
    let g = |i: int| session.missing(reports.drop_last()[i]);
    lemma_first_some_same(n, f, g);
}

/// What agrees on the positions finds the same.
proof fn lemma_first_some_same<T>(n: nat, f: spec_fn(int) -> Option<T>, g: spec_fn(int) -> Option<T>)
    requires
        forall|i: int| 0 <= i < n ==> #[trigger] f(i) == g(i),
    ensures
        first_some(n, f) == first_some(n, g),
    decreases n,
{
    if n > 0 {
        lemma_first_some_same((n - 1) as nat, f, g);
        assert(f(n - 1) == g(n - 1));
    }
}

/// The words that look for a report.
pub fn report_argv(path: &str) -> (r: Vec<String>)
    ensures
        texts(r@) == seq!["test"@, "-f"@, path@],
{
    let argv = vec!["test".to_owned(), "-f".to_owned(), path.to_owned()];
    assert(texts(argv@) =~= seq!["test"@, "-f"@, path@]);
    argv
}

impl CaptureSession {
    /// Opens a capture on the targets of a running server. `status` is what is known
    /// of the server: its targets, or why it cannot be captured.
    pub fn open(
        status: Result<Vec<ProfilerTargetRecord>, String>,
        server_record_id: &str,
        workload_id: &str,
        window_ids: &[String],
    ) -> (r: Result<CaptureSession, CaptureRecord>)
        ensures
            match status {
                Err(error) => r matches Err(record) && record@ == failed_capture(error@),
                Ok(targets) => match plan_fault(texts(window_ids@), targets@) {
                    Some(text) => r matches Err(record) && record@ == failed_capture(text),
                    None => r matches Ok(session) && session@.wf() && session@ == ({
                        let plan = planned(
                            server_record_id@,
                            workload_id@,
                            texts(window_ids@),
                            targets@,
                        );
                        SessionView {
                            targets: targets@,
                            plan,
                            record: CaptureView {
                                status: CaptureStatus::Running,
                                plan: Some(plan),
                                arm: Seq::empty(),
                                windows: Seq::empty(),
                                finalization: Seq::empty(),
                                reports: Seq::empty(),
                                error: None,
                            },
                            stop_failure: None,
                        }
                    }),
                },
            },
    {
        let targets = match status {
            Err(error) => return Err(CaptureRecord::failed(error)),
            Ok(targets) => targets,
        };
        let plan = match compile_plan(
            server_record_id,
            workload_id,
            window_ids,
            targets.as_slice(),
        ) {
            Ok(plan) => plan,
            Err(error) => return Err(CaptureRecord::failed(error.message())),
        };
        let record = CaptureRecord {
            status: CaptureStatus::Running,
            plan: Some(copy_plan(&plan)),
            arm: Vec::new(),
            windows: Vec::new(),
            finalization: Vec::new(),
            reports: Vec::new(),
            error: None,
        };
        proof {
            assert(actions_of(record.arm@) =~= Seq::empty());
            assert(window_records_of(record.windows@) =~= Seq::empty());
            assert(actions_of(record.finalization@) =~= Seq::empty());
            assert(reports_of(record.reports@) =~= Seq::empty());
        }
        Ok(CaptureSession { targets, plan, record, stop_failure: None })
    }

    /// Notes a fault: the first one counts.
    pub fn fail(&mut self, message: String)
        ensures
            final(self)@ == old(self)@.fail(message@),
    {
        self.record.status = CaptureStatus::Failed;
        if self.record.error.is_none() {
            self.record.error = Some(message);
        }
    }

    /// The words of a step of arming, or why there are none.
    pub fn arm_argv(&self, target: usize, stage: ArmStage) -> (r: Result<Vec<String>, String>)
        requires
            self@.wf(),
            target < self@.targets.len(),
        ensures
            match self@.arm_words(target as int, stage) {
                Ok(words) => r matches Ok(argv) && texts(argv@) == words,
                Err(text) => r matches Err(found) && found@ == text,
            },
    {
        let plan = &self.plan.targets[target];
        assert(self@.plan.targets[target as int] == plan@);
        match stage {
            ArmStage::Prepare => match parent(plan.output_base.as_str()) {
                Some(folder) => {
                    let argv = vec!["mkdir".to_owned(), "-p".to_owned(), folder];
                    assert(texts(argv@) =~= seq!["mkdir"@, "-p"@, folder@]);
                    Ok(argv)
                },
                None => Err(
                    cat3(
                        "capture output ",
                        debug_path(plan.output_base.as_str()).as_str(),
                        " has no parent",
                    ),
                ),
            },
            ArmStage::Start => match plan.expected_range_count {
                Some(count) => Ok(
                    nsys_start_argv(&self.targets[target], plan.output_base.as_str(), count),
                ),
                None => Err(
                    cat3(
                        "profiler target ",
                        debug(self.targets[target].process_id.as_str()).as_str(),
                        " has no static range count",
                    ),
                ),
            },
        }
    }

    /// One step of arming the targets, with the answer to its command.
    pub fn arm_range_collection(
        &mut self,
        target: usize,
        stage: ArmStage,
        argv: Vec<String>,
        answer: &Result<CommandOutput, String>,
    ) -> (r: ArmNext)
        requires
            old(self)@.wf(),
            target < old(self)@.targets.len(),
        ensures
            final(self)@.wf(),
            ({
                let action = old(self)@.arm_action(target as int, stage, texts(argv@), *answer);
                &&& final(self)@ == old(self)@.armed(target as int, stage, action)
                &&& r == old(self)@.after_arm(target as int, stage, action)
            }),
    {
        let ghost before = self@;
        let operation = match stage {
            ArmStage::Prepare => "prepare-output",
            ArmStage::Start => "start-range-collection",
        };
        let action = command_action(&self.targets[target], operation, argv, answer);
        let ok: bool = action.succeeded();
        let what = match stage {
            ArmStage::Prepare => "failed to prepare profiler target ",
            ArmStage::Start => "failed to arm profiler target ",
        };
        let message = action.error_or(
            cat2(what, debug(self.targets[target].process_id.as_str()).as_str()),
        );
        let ghost arm = self.record.arm@;
        self.record.arm.push(action);
        assert(actions_of(self.record.arm@) =~= actions_of(arm).push(action@));
        if !ok {
            self.fail(message);
            return ArmNext::Failed;
        }
        let count: usize = self.targets.len();
        match stage {
            ArmStage::Prepare => ArmNext::Run { target, stage: ArmStage::Start },
            ArmStage::Start => if target + 1 < count {
                ArmNext::Run { target: target + 1, stage: ArmStage::Prepare }
            } else {
                ArmNext::Armed
            },
        }
    }

    /// The range of the window with the id.
    pub fn find_window(&self, id: &str) -> (r: Result<Option<usize>, InferlabError>)
        ensures
            match self@.window_range(id@) {
                Some(range) => r matches Ok(found) && found == range,
                None => refuses_profiling(
                    r,
                    "capture plan contains no window "@ + debug_text(id@),
                ),
            },
    {
        let ghost named = self@.window_is(id@);
        let mut i: usize = 0;
        while i < self.plan.windows.len()
            invariant
                i <= self.plan.windows@.len(),
                named == self@.window_is(id@),
                forall|j: int| 0 <= j < i ==> !(#[trigger] named(j)),
            decreases self.plan.windows@.len() - i,
        {
            assert(self@.plan.windows[i as int] == (
                self.plan.windows@[i as int].id@,
                self.plan.windows@[i as int].range_index,
            ));
            if same(self.plan.windows[i].id.as_str(), id) {
                proof {
                    assert(named(i as int));
                    lemma_first_index_is(self@.plan.windows.len(), named, i as int);
                }
                return Ok(self.plan.windows[i].range_index);
            }
            i += 1;
        }
        proof {
            crate::search::lemma_first_index(self@.plan.windows.len(), named);
        }
        Err(
            InferlabError::Profiling {
                message: cat2("capture plan contains no window ", debug(id).as_str()),
            },
        )
    }

    /// Records a window: what opening it, its client and closing it came to. A
    /// failure to close it is kept as evidence and decides nothing: the reports do.
    pub fn run_window(
        &mut self,
        id: &str,
        start: Vec<CaptureActionRecord>,
        client: ClientOutcome,
        stop: Vec<CaptureActionRecord>,
    ) -> (r: Result<(), InferlabError>)
        requires
            old(self)@.wf(),
            client is NotRun ==> opening_fault(id@, actions_of(start@)) is Some,
        ensures
            final(self)@.wf(),
            match old(self)@.window_range(id@) {
                None => final(self)@ == old(self)@ && refuses_profiling(
                    r,
                    "capture plan contains no window "@ + debug_text(id@),
                ),
                Some(range) => match opening_fault(id@, actions_of(start@)) {
                    Some(message) => final(self)@ == old(self)@.unopened(
                        id@,
                        range,
                        actions_of(start@),
                        actions_of(stop@),
                        message,
                    ) && refuses_profiling(r, message),
                    None => match client {
                        ClientOutcome::Failed { error } => final(self)@ == old(self)@.ran(
                            id@,
                            range,
                            actions_of(start@),
                            actions_of(stop@),
                            Some(error@),
                        ) && refuses_profiling(r, error@),
                        _ => final(self)@ == old(self)@.ran(
                            id@,
                            range,
                            actions_of(start@),
                            actions_of(stop@),
                            None,
                        ) && r is Ok,
                    },
                },
            },
    {
        let ghost before = self@;
        let range_index: Option<usize> = match self.find_window(id) {
            Ok(range) => range,
            Err(error) => return Err(error),
        };
        let ghost windows = self.record.windows@;
        if let Some(message) = opening_failure(id, &start) {
            let window = CaptureWindowRecord {
                id: id.to_owned(),
                range_index,
                start,
                stop,
                client_succeeded: false,
                succeeded: false,
                error: Some(message.clone()),
            };
            self.record.windows.push(window);
            assert(window_records_of(self.record.windows@) =~= window_records_of(windows).push(
                window@,
            ));
            self.fail(message.clone());
            return Err(InferlabError::Profiling { message });
        }
        if self.stop_failure.is_none() {
            if let Some(at) = find_failure(&stop) {
                self.stop_failure = Some(
                    stop[at].error_or(
                        cat2("failed to close capture window ", debug(id).as_str()),
                    ),
                );
            }
        }
        let error: Option<String> = match client {
            ClientOutcome::Failed { error } => Some(error),
            _ => None,
        };
        let succeeded: bool = error.is_none();
        let window = CaptureWindowRecord {
            id: id.to_owned(),
            range_index,
            start,
            stop,
            client_succeeded: succeeded,
            succeeded,
            error: copy_text(&error),
        };
        self.record.windows.push(window);
        assert(window_records_of(self.record.windows@) =~= window_records_of(windows).push(
            window@,
        ));
        match error {
            Some(message) => {
                self.fail(message.clone());
                Err(InferlabError::Profiling { message })
            },
            None => Ok(()),
        }
    }
}

/// What came of ending the collection of a target.
pub fn finalize_target(target: &ProfilerTargetRecord, answer: &Result<CommandOutput, String>) -> (r:
    CaptureActionRecord)
    ensures
        r@ == command_told(
            target.process_id@,
            "finalize-collection"@,
            seq![target.executable@, "stop"@, "--session="@ + target.session@],
            *answer,
        ),
{
    command_action(
        target,
        "finalize-collection",
        nsys_stop_argv(target.executable.as_str(), target.session.as_str()),
        answer,
    )
}

impl CaptureSession {
    /// Ends the collections, with the answer of each target.
    pub fn finalize_collections(&mut self, answers: &[Result<CommandOutput, String>])
        requires
            old(self)@.wf(),
            answers@.len() == old(self)@.targets.len(),
        ensures
            final(self)@.wf(),
            final(self)@ == old(self)@.collected(answers@),
    {
        let ghost before = self@;
        let ghost fault = |i: int|
            if before.finalization(i, answers@[i]).finalized() {
                None
            } else {
                Some(
                    before.finalization(i, answers@[i]).reason_or(
                        "failed to finalize target "@ + debug_text(before.targets[i].process_id@),
                    ),
                )
            };
        let ghost all = Seq::new(
            answers@.len(),
            |i: int| before.finalization(i, answers@[i]),
        );
        let mut failure: Option<String> = None;
        let mut i: usize = 0;
        assert(actions_of(self.record.finalization@) =~= before.record.finalization + all.take(0));
        while i < answers.len()
            invariant
                i <= answers@.len(),
                answers@.len() == before.targets.len(),
                fault == (|i: int|
                    if before.finalization(i, answers@[i]).finalized() {
                        None
                    } else {
                        Some(
                            before.finalization(i, answers@[i]).reason_or(
                                "failed to finalize target "@ + debug_text(
                                    before.targets[i].process_id@,
                                ),
                            ),
                        )
                    }),
                all == Seq::new(answers@.len(), |i: int| before.finalization(i, answers@[i])),
                self@ == before.with(
                    CaptureView {
                        finalization: before.record.finalization + all.take(i as int),
                        ..before.record
                    },
                ),
                text_of(failure) == first_some(i as nat, fault),
            decreases answers@.len() - i,
        {
            assert(self.targets@ == before.targets);
            let action = finalize_target(&self.targets[i], &answers[i]);
            assert(action@ == all[i as int]);
            let acceptable: bool = finalization_succeeded(&action);
            if !acceptable && failure.is_none() {
                failure = Some(
                    action.error_or(
                        cat2(
                            "failed to finalize target ",
                            debug(self.targets[i].process_id.as_str()).as_str(),
                        ),
                    ),
                );
            }
            let ghost done = self.record.finalization@;
            self.record.finalization.push(action);
            proof {
                assert(actions_of(self.record.finalization@) =~= actions_of(done).push(action@));
                assert(all.take(i + 1) =~= all.take(i as int).push(all[i as int]));
                assert(before.record.finalization + all.take(i + 1) =~= (before.record.finalization
                    + all.take(i as int)).push(all[i as int]));
                assert(fault(i as int) is None <==> acceptable);
            }
            i += 1;
        }
        assert(all.take(i as int) =~= all);
        if let Some(message) = failure {
            self.fail(message);
        }
    }

    /// Looks for the reports, with the answers of each target, one for each window.
    pub fn verify_reports(&mut self, answers: &[Vec<Result<CommandOutput, String>>])
        requires
            old(self)@.wf(),
            answers@.len() == old(self)@.targets.len(),
            forall|t: int|
                0 <= t < answers@.len() ==> (#[trigger] answers@[t])@.len()
                    == old(self)@.plan.windows.len(),
        ensures
            final(self)@.wf(),
            final(self)@ == old(self)@.verified(answers@),
    {
        let ghost before = self@;
        let mut failure: Option<String> = None;
        let mut t: usize = 0;
        assert(self@.record.reports =~= before.record.reports + before.reports_until(0, answers@));
        while t < answers.len()
            invariant
                t <= answers@.len(),
                before.wf(),
                answers@.len() == before.targets.len(),
                forall|t: int|
                    0 <= t < answers@.len() ==> (#[trigger] answers@[t])@.len()
                        == before.plan.windows.len(),
                self@ == before.with(
                    CaptureView {
                        reports: before.record.reports + before.reports_until(t as int, answers@),
                        ..before.record
                    },
                ),
                text_of(failure) == before.first_missing(
                    before.reports_until(t as int, answers@),
                ),
            decreases answers@.len() - t,
        {
            let ghost so_far = before.reports_until(t as int, answers@);
            let ghost own = before.reports_of_target(t as int, answers@[t as int]@);
            let count: usize = self.plan.windows.len();
            let mut w: usize = 0;
            assert(so_far + own.take(0) =~= so_far);
            assert(before.record.reports + (so_far + own.take(0)) =~= before.record.reports
                + so_far);
            while w < count
                invariant
                    w <= count,
                    t < answers@.len(),
                    count == before.plan.windows.len(),
                    before.wf(),
                    answers@.len() == before.targets.len(),
                    forall|t: int|
                        0 <= t < answers@.len() ==> (#[trigger] answers@[t])@.len()
                            == before.plan.windows.len(),
                    own == before.reports_of_target(t as int, answers@[t as int]@),
                    self@ == before.with(
                        CaptureView {
                            reports: before.record.reports + (so_far + own.take(w as int)),
                            ..before.record
                        },
                    ),
                    text_of(failure) == before.first_missing(so_far + own.take(w as int)),
                decreases count - w,
            {
                let ghost here = answers@[t as int]@;
                proof {
                    assert(here.len() == before.plan.windows.len());
                    assert(self.plan@ == before.plan && self.targets@ == before.targets);
                    assert(before.plan.targets[t as int] == self.plan.targets@[t as int]@);
                    assert(before.plan.targets[t as int].reports.len()
                        == before.plan.windows.len());
                    assert(self.plan.targets@[t as int].reports@.len()
                        == before.plan.windows.len());
                    assert(texts(self.plan.targets@[t as int].reports@)[w as int]
                        == self.plan.targets@[t as int].reports@[w as int]@);
                    assert(before.plan.windows[w as int] == (
                        self.plan.windows@[w as int].id@,
                        self.plan.windows@[w as int].range_index,
                    ));
                }
                let path = self.plan.targets[t].reports[w].clone();
                let argv = report_argv(path.as_str());
                let verification = command_action(
                    &self.targets[t],
                    "verify-report",
                    argv,
                    &answers[t][w],
                );
                let verified: bool = verification.succeeded();
                let report = CaptureReportRecord {
                    process_id: self.targets[t].process_id.clone(),
                    role_id: self.targets[t].role_id.clone(),
                    window_id: self.plan.windows[w].id.clone(),
                    range_index: self.plan.windows[w].range_index,
                    path,
                    verified,
                    verification,
                };
                assert(report@ == own[w as int]);
                if !verified && failure.is_none() {
                    let message = cat6(
                        "missing Nsight Systems report for target ",
                        debug(report.process_id.as_str()).as_str(),
                        ", window ",
                        debug(report.window_id.as_str()).as_str(),
                        ": ",
                        report.path.as_str(),
                    );
                    failure = Some(
                        match &self.stop_failure {
                            Some(stop) => cat3(
                                message.as_str(),
                                "; a window-closing control action had failed: ",
                                stop.as_str(),
                            ),
                            None => message,
                        },
                    );
                }
                let ghost done = self.record.reports@;
                self.record.reports.push(report);
                proof {
                    let longer = so_far + own.take(w + 1);
                    assert(reports_of(self.record.reports@) =~= reports_of(done).push(report@));
                    assert(own.take(w + 1) =~= own.take(w as int).push(own[w as int]));
                    assert(longer.drop_last() =~= so_far + own.take(w as int));
                    assert(longer.last() == own[w as int]);
                    assert(before.record.reports + longer =~= (before.record.reports + (so_far
                        + own.take(w as int))).push(own[w as int]));
                    lemma_first_missing_step(before, longer);
                }
                w += 1;
            }
            assert(own.take(w as int) =~= own);
            t += 1;
        }
        if let Some(message) = failure {
            self.fail(message);
        }
    }

    /// Ends the capture: it succeeded where nothing went wrong, every window was run
    /// and every report is there.
    pub fn finish(self) -> (r: CaptureRecord)
        ensures
            r@ == self@.record.ended(),
    {
        let mut record = self.record;
        let ghost start = record@;
        let mut complete: bool = record.error.is_none();
        let mut i: usize = 0;
        while i < record.windows.len()
            invariant
                i <= record.windows@.len(),
                record@ == start,
                complete == (start.error is None && forall|j: int|
                    0 <= j < i ==> (#[trigger] start.windows[j]).succeeded),
            decreases record.windows@.len() - i,
        {
            assert(start.windows[i as int] == record.windows@[i as int]@);
            if !record.windows[i].succeeded {
                complete = false;
            }
            i += 1;
        }
        let mut i: usize = 0;
        while i < record.reports.len()
            invariant
                i <= record.reports@.len(),
                record@ == start,
                complete == (start.error is None && (forall|j: int|
                    0 <= j < start.windows.len() ==> (#[trigger] start.windows[j]).succeeded)
                    && forall|j: int| 0 <= j < i ==> (#[trigger] start.reports[j]).verified),
            decreases record.reports@.len() - i,
        {
            assert(start.reports[i as int] == record.reports@[i as int]@);
            if !record.reports[i].verified {
                complete = false;
            }
            i += 1;
        }
        record.status = if complete {
            CaptureStatus::Succeeded
        } else {
            CaptureStatus::Failed
        };
        record
    }
}

// ---------------------------------------------------------------------------
// Laws

/// A window that was not closed does not fail a capture by itself: the record stays
/// without a fault where the client succeeded, and the failure is held.
pub proof fn law_failed_close_is_evidence_alone(
    session: SessionView,
    id: Seq<char>,
    range: Option<usize>,
    start: Seq<ActionView>,
    stop: Seq<ActionView>,
)
    requires
        first_failure(stop) is Some,
    ensures
        session.ran(id, range, start, stop, None).record.error == session.record.error,
        session.ran(id, range, start, stop, None).record.status == session.record.status,
        session.ran(id, range, start, stop, None).stop_failure is Some,
{
}

/// The first fault of a capture is the one that it keeps.
pub proof fn law_first_fault_is_kept(record: CaptureView, first: Seq<char>, second: Seq<char>)
    requires
        record.error is None,
    ensures
        record.fail(first).error == Some(first),
        record.fail(first).fail(second).error == Some(first),
        record.fail(first).fail(second).status == CaptureStatus::Failed,
{
}

/// A capture with a fault never succeeds, whatever its reports.
pub proof fn law_capture_with_a_fault_fails(record: CaptureView)
    requires
        record.error is Some,
    ensures
        !record.complete(),
{
}

/// A missing report fails the capture.
pub proof fn law_missing_report_fails_the_capture(
    session: SessionView,
    answers: Seq<Vec<Result<CommandOutput, String>>>,
    i: int,
)
    requires
        ({
            let found = session.reports_until(session.targets.len() as int, answers);
            0 <= i < found.len() && !found[i].verified
        }),
    ensures
        session.verified(answers).record.error is Some,
        session.verified(answers).record.status == CaptureStatus::Failed,
        !session.verified(answers).record.complete(),
{
    let found = session.reports_until(session.targets.len() as int, answers);
    let f = |i: int| session.missing(found[i]);
    lemma_first_some_none(found.len(), f);
    assert(f(i) is Some);
}

/// Each controller is asked once, whatever the number of its targets.
pub proof fn law_each_controller_is_asked_once(
    targets: Seq<ProfilerTargetRecord>,
    n: int,
    start: bool,
    named: spec_fn(Seq<char>) -> bool,
    a: int,
    b: int,
)
    requires
        0 <= n <= targets.len(),
        0 <= a < b < requests_for(targets, n, start, named).len(),
    ensures
        requests_for(targets, n, start, named)[a].process_id != requests_for(
            targets,
            n,
            start,
            named,
        )[b].process_id,
    decreases n,
{
    let whole = requests_for(targets, n, start, named);
    let before = requests_for(targets, n - 1, start, named);
    if b < before.len() {
        law_each_controller_is_asked_once(targets, n - 1, start, named, a, b);
    } else {
        lemma_requests_come_from_targets(targets, n - 1, start, named, a);
        assert(whole[a] == before[a]);
        assert(whole[b] == request_of(targets[n - 1], start));
    }
}

/// A request is that of a target among the first.
proof fn lemma_requests_come_from_targets(
    targets: Seq<ProfilerTargetRecord>,
    n: int,
    start: bool,
    named: spec_fn(Seq<char>) -> bool,
    a: int,
) -> (j: int)
    requires
        0 <= n <= targets.len(),
        0 <= a < requests_for(targets, n, start, named).len(),
    ensures
        0 <= j < n,
        controller(targets[j]) == requests_for(targets, n, start, named)[a].process_id,
    decreases n,
{
    let before = requests_for(targets, n - 1, start, named);
    if a < before.len() {
        lemma_requests_come_from_targets(targets, n - 1, start, named, a)
    } else {
        n - 1
    }
}

/// Every request goes to the controller of a target, at the address of that
/// controller and within its deadline: one that opens a window carries the target's
/// own start path, one that closes it the target's own stop path.
pub proof fn law_request_carries_the_path_of_its_target(
    targets: Seq<ProfilerTargetRecord>,
    n: int,
    start: bool,
    named: spec_fn(Seq<char>) -> bool,
    a: int,
) -> (j: int)
    requires
        0 <= n <= targets.len(),
        0 <= a < requests_for(targets, n, start, named).len(),
    ensures
        0 <= j < n,
        targets[j].control matches ProfilerControl::Http {
            process_id,
            endpoint,
            start_path,
            stop_path,
            deadline_seconds,
        } && {
            let asked = requests_for(targets, n, start, named)[a];
            &&& named(process_id@)
            &&& asked.process_id == process_id@
            &&& asked.host == endpoint.host@
            &&& asked.port == endpoint.port
            &&& asked.deadline_seconds == deadline_seconds
            &&& start ==> asked.path == start_path@ && asked.operation == "start-range"@
            &&& !start ==> asked.path == stop_path@ && asked.operation == "stop-range"@
        },
    decreases n,
{
    let before = requests_for(targets, n - 1, start, named);
    if a < before.len() {
        law_request_carries_the_path_of_its_target(targets, n - 1, start, named, a)
    } else {
        n - 1
    }
}

/// No controller that is named is left out: each target whose controller is named
/// has a request to that controller.
pub proof fn law_every_named_controller_is_asked(
    targets: Seq<ProfilerTargetRecord>,
    n: int,
    start: bool,
    named: spec_fn(Seq<char>) -> bool,
    j: int,
) -> (a: int)
    requires
        0 <= j < n <= targets.len(),
        targets[j].control matches ProfilerControl::Http { process_id, .. } && named(process_id@),
    ensures
        0 <= a < requests_for(targets, n, start, named).len(),
        targets[j].control matches ProfilerControl::Http { process_id, .. } && requests_for(
            targets,
            n,
            start,
            named,
        )[a].process_id == process_id@,
    decreases n,
{
    let before = requests_for(targets, n - 1, start, named);
    if j < n - 1 {
        law_every_named_controller_is_asked(targets, n - 1, start, named, j)
    } else if controlled_before(targets, j) {
        let k = choose|k: int|
            0 <= k < j && controller(#[trigger] targets[k]) == controller(targets[j]);
        law_every_named_controller_is_asked(targets, n - 1, start, named, k)
    } else {
        before.len() as int
    }
}

/// A window is closed by the controllers that opened it and by no other: each such
/// controller of a target is asked, at the stop path of a target of its own.
pub proof fn law_window_is_closed_by_those_who_opened_it(
    targets: Seq<ProfilerTargetRecord>,
    start: Seq<ActionView>,
    a: int,
) -> (j: int)
    requires
        0 <= a < closing_requests(targets, start).len(),
    ensures
        0 <= j < targets.len(),
        targets[j].control matches ProfilerControl::Http { process_id, stop_path, endpoint, .. } && {
            let asked = closing_requests(targets, start)[a];
            &&& asked.process_id == process_id@
            &&& asked.path == stop_path@
            &&& asked.host == endpoint.host@
            &&& asked.port == endpoint.port
            &&& exists|i: int|
                0 <= i < start.len() && (#[trigger] start[i]).ok() && start[i] is Http
                    && start[i]->Http_process_id == process_id@
        },
{
    law_request_carries_the_path_of_its_target(
        targets,
        targets.len() as int,
        false,
        |id: Seq<char>| opened(start, id),
        a,
    )
}

/// Whatever opened a window is asked to close it.
pub proof fn law_opened_window_is_closed(
    targets: Seq<ProfilerTargetRecord>,
    start: Seq<ActionView>,
    i: int,
    j: int,
) -> (a: int)
    requires
        0 <= i < start.len(),
        start[i].ok() && start[i] is Http,
        0 <= j < targets.len(),
        targets[j].control matches ProfilerControl::Http { process_id, .. } && process_id@
            == start[i]->Http_process_id,
    ensures
        0 <= a < closing_requests(targets, start).len(),
        closing_requests(targets, start)[a].process_id == start[i]->Http_process_id,
{
    let named = |id: Seq<char>| opened(start, id);
    assert(named(start[i]->Http_process_id));
    law_every_named_controller_is_asked(targets, targets.len() as int, false, named, j)
}

/// A request succeeded exactly where it was answered with a status of success; it was
/// sent to the address and path of the request.
pub proof fn law_request_succeeds_with_a_good_status(request: RequestView, result: Result<u16, String>)
    ensures
        request_told(request, result).ok() <==> (result matches Ok(status) && 200 <= status <= 299),
        request_told(request, result) matches ActionView::Http { process_id, operation, url, .. }
            && process_id == request.process_id && operation == request.operation && url
            == "http://"@ + request.host + ":"@ + decimal(request.port as nat) + request.path,
{
}

/// A command succeeded exactly where it could be run and ended well.
pub proof fn law_command_succeeds_where_it_ended_well(
    target: Seq<char>,
    operation: Seq<char>,
    argv: Seq<Seq<char>>,
    answer: Result<CommandOutput, String>,
)
    ensures
        command_told(target, operation, argv, answer).ok() <==> (answer matches Ok(output)
            && output.success),
        command_told(target, operation, argv, answer) matches ActionView::Command {
            target_id,
            operation: what,
            argv: words,
            ..
        } && target_id == target && what == operation && words == argv,
{
}

/// Each target is prepared and then started before the next one is prepared, and the
/// capture is armed once the last one was started; a step that fails ends the arming and
/// fails the capture.
pub proof fn law_targets_are_armed_one_after_the_other(
    session: SessionView,
    target: int,
    stage: ArmStage,
    action: ActionView,
)
    requires
        0 <= target < session.targets.len() <= usize::MAX,
    ensures
        !action.ok() <==> session.after_arm(target, stage, action) is Failed,
        !action.ok() ==> session.armed(target, stage, action).record.status == CaptureStatus::Failed
            && session.armed(target, stage, action).record.error is Some,
        action.ok() ==> session.armed(target, stage, action).record.error == session.record.error
            && session.armed(target, stage, action).record.status == session.record.status,
        session.armed(target, stage, action).record.arm.drop_last() == session.record.arm,
        session.armed(target, stage, action).record.arm.last() == action,
        action.ok() && stage == ArmStage::Prepare ==> session.after_arm(target, stage, action) == (
        ArmNext::Run { target: target as usize, stage: ArmStage::Start }),
        action.ok() && stage == ArmStage::Start && target + 1 < session.targets.len()
            ==> session.after_arm(target, stage, action) == (ArmNext::Run {
            target: (target + 1) as usize,
            stage: ArmStage::Prepare,
        }),
        action.ok() && stage == ArmStage::Start && target + 1 == session.targets.len() ==> (
        session.after_arm(target, stage, action) is Armed),
{
    assert(session.armed(target, stage, action).record.arm.drop_last() =~= session.record.arm);
}

/// A target is prepared by making the directory that holds its own reports, and started
/// by a collection of its own, to its own output and over all its windows.
pub proof fn law_target_is_armed_for_its_own_reports(session: SessionView, target: int, count: usize)
    requires
        0 <= target < session.targets.len(),
        session.plan.targets[target].expected_range_count == Some(count),
    ensures
        session.arm_words(target, ArmStage::Prepare) matches Ok(words) ==> words.len() == 3
            && words[0] == "mkdir"@ && words[1] == "-p"@ && parent_of(
            session.plan.targets[target].output_base,
        ) == Some(words[2]),
        session.arm_words(target, ArmStage::Start) == Ok::<Seq<Seq<char>>, Seq<char>>(
            start_words(
                session.targets[target],
                session.plan.targets[target].output_base,
                count as nat,
            ),
        ),
{
}

/// A window is recorded once, with its id and range, what opened and what closed it; it
/// succeeded exactly where it was opened and its client succeeded.
pub proof fn law_window_succeeds_with_its_client(
    session: SessionView,
    id: Seq<char>,
    range: Option<usize>,
    start: Seq<ActionView>,
    stop: Seq<ActionView>,
    error: Option<Seq<char>>,
    message: Seq<char>,
)
    ensures
        ({
            let ran = session.ran(id, range, start, stop, error).record;
            let unopened = session.unopened(id, range, start, stop, message).record;
            &&& ran.windows.drop_last() == session.record.windows
            &&& ran.windows.last().id == id && ran.windows.last().range_index == range
            &&& ran.windows.last().start == start && ran.windows.last().stop == stop
            &&& ran.windows.last().succeeded <==> error is None
            &&& ran.windows.last().client_succeeded <==> error is None
            &&& ran.windows.last().error == error
            &&& error is None ==> ran.error == session.record.error && ran.status
                == session.record.status
            &&& error is Some ==> ran.error is Some && ran.status == CaptureStatus::Failed
            &&& unopened.windows.drop_last() == session.record.windows
            &&& unopened.windows.last().id == id && unopened.windows.last().range_index == range
            &&& unopened.windows.last().start == start && unopened.windows.last().stop == stop
            &&& !unopened.windows.last().succeeded && !unopened.windows.last().client_succeeded
            &&& unopened.error is Some && unopened.status == CaptureStatus::Failed
        }),
{
    assert(session.ran(id, range, start, stop, error).record.windows.drop_last()
        =~= session.record.windows);
    assert(session.unopened(id, range, start, stop, message).record.windows.drop_last()
        =~= session.record.windows);
}

/// A window could be opened exactly where every controller opened it.
pub proof fn law_window_opens_where_every_controller_did(id: Seq<char>, start: Seq<ActionView>)
    ensures
        opening_fault(id, start) is None <==> forall|i: int|
            0 <= i < start.len() ==> (#[trigger] start[i]).ok(),
{
    let f = |i: int|
        if start[i].ok() {
            None
        } else {
            Some(start[i])
        };
    lemma_first_some_none(start.len(), f);
    assert(first_failure(start) == first_some(start.len(), f));
    if first_failure(start) is None {
        assert forall|i: int| 0 <= i < start.len() implies (#[trigger] start[i]).ok() by {
            assert(f(i) is None);
        }
    }
}

/// A collection is ended by the profiler of its target, in the session of its target,
/// and has ended where the command succeeded or tells that it had ended before.
pub proof fn law_collection_is_ended_in_its_session(
    session: SessionView,
    i: int,
    answer: Result<CommandOutput, String>,
)
    ensures
        session.finalization(i, answer) matches ActionView::Command { target_id, argv, .. } && target_id
            == session.targets[i].process_id@ && argv.len() == 3 && argv[0]
            == session.targets[i].executable@ && argv[1] == "stop"@ && argv[2] == "--session="@
            + session.targets[i].session@,
        session.finalization(i, answer).finalized() <==> ({
            ||| (answer matches Ok(output) && output.success)
            ||| contains_text(
                match answer {
                    Ok(output) => lossy_text(output.stderr@),
                    Err(error) => error@,
                },
                "Collection stop is not allowed in this state."@,
            )
        }),
{
}

/// Every window has a report of every target: it is looked for at the path that the plan
/// gives it, told of the target's process and of the window, and is there exactly where
/// the look found it.
pub proof fn law_every_report_is_looked_for(
    session: SessionView,
    answers: Seq<Vec<Result<CommandOutput, String>>>,
    n: int,
    t: int,
    w: int,
)
    requires
        0 <= t < n,
        0 <= w < session.plan.windows.len(),
    ensures
        ({
            let found = session.reports_until(n, answers);
            let at = t * session.plan.windows.len() + w;
            &&& found.len() == n * session.plan.windows.len()
            &&& 0 <= at < found.len()
            &&& found[at].process_id == session.targets[t].process_id@
            &&& found[at].role_id == session.targets[t].role_id@
            &&& found[at].window_id == session.plan.windows[w].0
            &&& found[at].range_index == session.plan.windows[w].1
            &&& found[at].path == session.plan.targets[t].reports[w]
            &&& found[at].verified <==> (answers[t]@[w] matches Ok(output) && output.success)
        }),
    decreases n,
{
    let count = session.plan.windows.len() as int;
    let before = session.reports_until(n - 1, answers);
    assert(n * count == (n - 1) * count + count) by (nonlinear_arith);
    if n > 1 {
        law_every_report_is_looked_for(
            session,
            answers,
            n - 1,
            if t < n - 1 {
                t
            } else {
                0
            },
            w,
        );
    } else {
        assert(before =~= Seq::empty());
        assert((n - 1) * count == 0) by (nonlinear_arith)
            requires
                n == 1,
        ;
    }
    assert(before.len() == (n - 1) * count);
    let own = session.reports_of_target(n - 1, answers[n - 1]@);
    assert(own.len() == count);
    let at = t * count + w;
    if t < n - 1 {
        assert(session.reports_until(n, answers)[at] == before[at]);
    } else {
        assert(session.reports_until(n, answers)[at] == own[w]);
    }
}

/// A capture succeeds exactly where nothing went wrong, every window succeeded and every
/// report is there; whatever it holds stays as it is.
pub proof fn law_capture_succeeds_with_every_window_and_report(record: CaptureView)
    ensures
        record.ended().status == CaptureStatus::Succeeded <==> {
            &&& record.error is None
            &&& forall|i: int|
                0 <= i < record.windows.len() ==> (#[trigger] record.windows[i]).succeeded
            &&& forall|i: int|
                0 <= i < record.reports.len() ==> (#[trigger] record.reports[i]).verified
        },
        record.ended().status != CaptureStatus::Succeeded ==> record.ended().status
            == CaptureStatus::Failed,
        record.ended().windows == record.windows,
        record.ended().reports == record.reports,
        record.ended().error == record.error,
        record.ended().arm == record.arm,
{
}

impl SessionView {
    /// A window has the range that the plan gives it, and a window that the plan does not
    /// hold has none.
    pub proof fn law_window_has_its_own_range(self, id: Seq<char>, i: int)
        ensures
            0 <= i < self.plan.windows.len() && self.plan.windows[i].0 == id && (forall|j: int|
                0 <= j < i ==> (#[trigger] self.plan.windows[j]).0 != id) ==> self.window_range(id)
                == Some(self.plan.windows[i].1),
            (forall|j: int|
                0 <= j < self.plan.windows.len() ==> (#[trigger] self.plan.windows[j]).0 != id)
                ==> self.window_range(id) is None,
    {
        let p = self.window_is(id);
        crate::search::lemma_first_index(self.plan.windows.len(), p);
        if 0 <= i < self.plan.windows.len() && self.plan.windows[i].0 == id && (forall|j: int|
            0 <= j < i ==> (#[trigger] self.plan.windows[j]).0 != id) {
            assert(p(i));
            assert forall|j: int| 0 <= j < i implies !(#[trigger] p(j)) by {
                assert(self.plan.windows[j].0 != id);
            }
            crate::search::lemma_first_index_is(self.plan.windows.len(), p, i);
        }
    }
}

/// A capture that failed before it began has done nothing, and tells why.
pub proof fn law_failed_capture_has_done_nothing(message: Seq<char>)
    ensures
        failed_capture(message).status is Failed,
        failed_capture(message).error == Some(message),
        failed_capture(message).arm.len() == 0 && failed_capture(message).windows.len() == 0,
        failed_capture(message).finalization.len() == 0 && failed_capture(message).reports.len()
            == 0,
        failed_capture(message).plan is None,
{
}

/// A step of arming is told of its own target, as the step that it was, with the words that
/// were run and what they came to.
pub proof fn law_step_of_arming_is_told_as_it_was(
    session: SessionView,
    target: int,
    stage: ArmStage,
    words: Seq<Seq<char>>,
    answer: Result<CommandOutput, String>,
)
    ensures
        session.arm_action(target, stage, words, answer) matches ActionView::Command {
            target_id,
            operation,
            argv,
            succeeded,
            ..
        } && {
            &&& target_id == session.targets[target].process_id@
            &&& stage is Prepare ==> operation == "prepare-output"@
            &&& stage is Start ==> operation == "start-range-collection"@
            &&& argv == words
            &&& succeeded <==> (answer matches Ok(output) && output.success)
        },
{
}

/// The end of every collection is recorded behind what was recorded before, each for its own
/// target, and leaves windows, reports and targets as they are.
pub proof fn law_end_of_every_collection_is_recorded(
    session: SessionView,
    answers: Seq<Result<CommandOutput, String>>,
    i: int,
)
    requires
        0 <= i < answers.len(),
    ensures
        ({
            let before = session.record.finalization;
            let after = session.collected(answers).record.finalization;
            &&& after.len() == before.len() + answers.len()
            &&& after.take(before.len() as int) == before
            &&& after[before.len() + i] matches ActionView::Command { target_id, succeeded, .. } && {
                &&& target_id == session.targets[i].process_id@
                &&& succeeded <==> (answers[i] matches Ok(output) && output.success)
            }
            &&& session.collected(answers).record.windows == session.record.windows
            &&& session.collected(answers).record.reports == session.record.reports
            &&& session.collected(answers).targets == session.targets
        }),
{
    let before = session.record.finalization;
    let after = session.collected(answers).record.finalization;
    assert(after.take(before.len() as int) =~= before);
}

/// A capture that failed stays failed, for the first fault that it met.
pub proof fn law_first_fault_of_a_capture_counts(
    capture: CaptureView,
    first: Seq<char>,
    second: Seq<char>,
)
    requires
        capture.error is None,
    ensures
        capture.fail(first).status is Failed && capture.fail(first).error == Some(first),
        capture.fail(first).fail(second).status is Failed,
        capture.fail(first).fail(second).error == Some(first),
        capture.fail(first).windows == capture.windows,
{
}

} // verus!
