//! Capture plans: which windows are recorded, and where each target writes them.

use crate::error::InferlabError;
use crate::paths::{join_path, joined_path, settle, settled};
use crate::profiler::target::{
    sanitize_segment, sanitized, ProfilerTargetRecord, WindowControlKind,
};
use crate::text::{cat3, cat4, decimal, find_last_char, last_position, same, texts, to_decimal};
use vstd::prelude::*;
use vstd::string::*;

verus! {

/// A window of a capture.
#[derive(Debug)]
pub struct CaptureWindowPlan {
    pub id: String,
    pub range_index: Option<usize>,
}

/// What a target records.
#[derive(Debug)]
pub struct CaptureTargetPlan {
    pub process_id: String,
    pub role_id: String,
    pub replica_id: String,
    pub replica_index: u32,
    pub rank: u32,
    pub session: String,
    pub expected_range_count: Option<usize>,
    pub output_base: String,
    pub reports: Vec<String>,
}

/// What a capture records.
#[derive(Debug)]
pub struct CapturePlanRecord {
    pub server_record_id: String,
    pub workload_id: String,
    pub control: WindowControlKind,
    pub windows: Vec<CaptureWindowPlan>,
    pub targets: Vec<CaptureTargetPlan>,
}

/// What a target records, as values.
#[verifier::ext_equal]
pub struct TargetPlanView {
    pub process_id: Seq<char>,
    pub role_id: Seq<char>,
    pub replica_id: Seq<char>,
    pub replica_index: u32,
    pub rank: u32,
    pub session: Seq<char>,
    pub expected_range_count: Option<usize>,
    pub output_base: Seq<char>,
    pub reports: Seq<Seq<char>>,
}

/// What a capture records, as values.
#[verifier::ext_equal]
pub struct PlanView {
    pub server_record_id: Seq<char>,
    pub workload_id: Seq<char>,
    pub control: WindowControlKind,
    pub windows: Seq<(Seq<char>, Option<usize>)>,
    pub targets: Seq<TargetPlanView>,
}

impl View for CaptureTargetPlan {
    type V = TargetPlanView;

    open spec fn view(&self) -> TargetPlanView {
        TargetPlanView {
            process_id: self.process_id@,
            role_id: self.role_id@,
            replica_id: self.replica_id@,
            replica_index: self.replica_index,
            rank: self.rank,
            session: self.session@,
            expected_range_count: self.expected_range_count,
            output_base: self.output_base@,
            reports: texts(self.reports@),
        }
    }
}

/// The windows of a plan, as values.
pub open spec fn windows_of(windows: Seq<CaptureWindowPlan>) -> Seq<(Seq<char>, Option<usize>)> {
    Seq::new(windows.len(), |i: int| (windows[i].id@, windows[i].range_index))
}

/// The targets of a plan, as values.
pub open spec fn target_plans_of(targets: Seq<CaptureTargetPlan>) -> Seq<TargetPlanView> {
    Seq::new(targets.len(), |i: int| targets[i]@)
}

impl View for CapturePlanRecord {
    type V = PlanView;

    open spec fn view(&self) -> PlanView {
        PlanView {
            server_record_id: self.server_record_id@,
            workload_id: self.workload_id@,
            control: self.control,
            windows: windows_of(self.windows@),
            targets: target_plans_of(self.targets@),
        }
    }
}

// ---------------------------------------------------------------------------
// Report paths

/// The path with another extension; one that names no file stays.
pub open spec fn with_extension(path: Seq<char>, extension: Seq<char>) -> Seq<char> {
    let whole = settled(path);
    let cut = last_position(whole, '/') + 1;
    let name = whole.skip(cut);
    let dot = last_position(name, '.');
    if name.len() == 0 || name == "."@ || name == ".."@ {
        path
    } else if dot <= 0 {
        whole + "."@ + extension
    } else {
        whole.take(cut + dot) + "."@ + extension
    }
}

fn replace_extension(path: &str, extension: &str) -> (r: String)
    ensures
        r@ == with_extension(path@, extension@),
{
    let whole = settle(path);
    let n: usize = whole.unicode_len();
    let cut: usize = match find_last_char(whole, '/') {
        Some(at) => at + 1,
        None => 0,
    };
    let name = whole.substring_char(cut, n);
    assert(name@ =~= whole@.skip(cut as int));
    if name.is_empty() || same(name, ".") || same(name, "..") {
        return path.to_owned();
    }
    match find_last_char(name, '.') {
        Some(dot) => {
            if dot == 0 {
                cat3(whole, ".", extension)
            } else {
                let stem = whole.substring_char(0, cut + dot);
                assert(stem@ =~= whole@.take(cut + dot));
                cat3(stem, ".", extension)
            }
        },
        None => cat3(whole, ".", extension),
    }
}

/// Where a target writes the report of a window.
pub open spec fn report_text(output_base: Seq<char>, range_index: Option<usize>) -> Seq<char> {
    match range_index {
        Some(index) => output_base + "."@ + decimal(index as nat) + ".nsys-rep"@,
        None => with_extension(output_base, "nsys-rep"@),
    }
}

/// Where a target writes the report of a window.
pub fn report_path(output_base: &str, range_index: Option<usize>) -> (r: String)
    ensures
        r@ == report_text(output_base@, range_index),
{
    match range_index {
        Some(index) => cat4(output_base, ".", to_decimal(index as u64).as_str(), ".nsys-rep"),
        None => replace_extension(output_base, "nsys-rep"),
    }
}

// ---------------------------------------------------------------------------
// Plans

/// The windows with the ids, counted from one.
pub open spec fn counted_windows(ids: Seq<Seq<char>>) -> Seq<(Seq<char>, Option<usize>)> {
    Seq::new(ids.len(), |i: int| (ids[i], Some((i + 1) as usize)))
}

/// Where a target writes the reports of a workload.
pub open spec fn output_base_of(target: ProfilerTargetRecord, workload: Seq<char>) -> Seq<char> {
    joined_path(joined_path(target.runtime_root@, sanitized(workload)), "trace"@)
}

/// What a target records of a workload.
pub open spec fn planned_target(
    target: ProfilerTargetRecord,
    workload: Seq<char>,
    count: nat,
) -> TargetPlanView {
    let base = output_base_of(target, workload);
    TargetPlanView {
        process_id: target.process_id@,
        role_id: target.role_id@,
        replica_id: target.replica_id@,
        replica_index: target.replica_index,
        rank: target.rank,
        session: target.session@,
        expected_range_count: Some(count as usize),
        output_base: base,
        reports: Seq::new(count, |i: int| report_text(base, Some((i + 1) as usize))),
    }
}

/// The plan of a capture.
pub open spec fn planned(
    server: Seq<char>,
    workload: Seq<char>,
    ids: Seq<Seq<char>>,
    targets: Seq<ProfilerTargetRecord>,
) -> PlanView {
    PlanView {
        server_record_id: server,
        workload_id: workload,
        control: WindowControlKind::FrameworkRange,
        windows: counted_windows(ids),
        targets: Seq::new(
            targets.len(),
            |i: int| planned_target(targets[i], workload, ids.len()),
        ),
    }
}

/// Whether a target's windows can be opened and closed by the framework.
pub open spec fn controllable(target: ProfilerTargetRecord) -> bool {
    target.supported_window_controls@.contains(WindowControlKind::FrameworkRange)
}

/// Why a capture cannot be planned.
pub open spec fn plan_fault(ids: Seq<Seq<char>>, targets: Seq<ProfilerTargetRecord>) -> Option<
    Seq<char>,
> {
    if targets.len() == 0 {
        Some("managed server has no prepared profiling targets"@)
    } else if exists|i: int| 0 <= i < targets.len() && !controllable(#[trigger] targets[i]) {
        Some("profiling target does not support framework-range control"@)
    } else if ids.len() == 0 {
        Some("range-backed profiling requires static workload windows"@)
    } else {
        None
    }
}

fn is_controllable(target: &ProfilerTargetRecord) -> (r: bool)
    ensures
        r == controllable(*target),
{
    let mut i: usize = 0;
    while i < target.supported_window_controls.len()
        invariant
            i <= target.supported_window_controls@.len(),
            forall|j: int|
                0 <= j < i ==> #[trigger] target.supported_window_controls@[j]
                    != WindowControlKind::FrameworkRange,
        decreases target.supported_window_controls@.len() - i,
    {
        if target.supported_window_controls[i] == WindowControlKind::FrameworkRange {
            assert(target.supported_window_controls@[i as int]
                == WindowControlKind::FrameworkRange);
            return true;
        }
        i += 1;
    }
    false
}

fn plan_target(target: &ProfilerTargetRecord, workload_id: &str, count: usize) -> (r:
    CaptureTargetPlan)
    ensures
        r@ == planned_target(*target, workload_id@, count as nat),
{
    let folder = join_path(
        target.runtime_root.as_str(),
        sanitize_segment(workload_id).as_str(),
    );
    let output_base = join_path(folder.as_str(), "trace");
    let ghost all = Seq::new(
        count as nat,
        |i: int| report_text(output_base@, Some((i + 1) as usize)),
    );
    let mut reports: Vec<String> = Vec::new();
    let mut i: usize = 0;
    assert(texts(reports@) =~= all.take(0));
    while i < count
        invariant
            i <= count,
            all == Seq::new(
                count as nat,
                |i: int| report_text(output_base@, Some((i + 1) as usize)),
            ),
            texts(reports@) == all.take(i as int),
        decreases count - i,
    {
        let ghost before = texts(reports@);
        let report = report_path(output_base.as_str(), Some(i + 1));
        reports.push(report);
        proof {
            assert(texts(reports@) =~= before.push(report@));
            assert(all.take(i + 1) =~= all.take(i as int).push(all[i as int]));
        }
        i += 1;
    }
    assert(all.take(i as int) =~= all);
    CaptureTargetPlan {
        process_id: target.process_id.clone(),
        role_id: target.role_id.clone(),
        replica_id: target.replica_id.clone(),
        replica_index: target.replica_index,
        rank: target.rank,
        session: target.session.clone(),
        expected_range_count: Some(count),
        output_base,
        reports,
    }
}

fn profiling_error<T>(message: &str) -> (r: Result<T, InferlabError>)
    ensures
        refuses_profiling(r, message@),
{
    Err(InferlabError::Profiling { message: message.to_owned() })
}

/// Whether the result is the refusal of a capture with the text.
pub open spec fn refuses_profiling<T>(r: Result<T, InferlabError>, text: Seq<char>) -> bool {
    r matches Err(InferlabError::Profiling { message }) && message@ == text
}

/// Plans a capture of the windows of a workload on all targets.
pub fn compile_plan(
    server_record_id: &str,
    workload_id: &str,
    window_ids: &[String],
    targets: &[ProfilerTargetRecord],
) -> (r: Result<CapturePlanRecord, InferlabError>)
    ensures
        match plan_fault(texts(window_ids@), targets@) {
            Some(text) => refuses_profiling(r, text),
            None => r matches Ok(plan) && plan@ == planned(
                server_record_id@,
                workload_id@,
                texts(window_ids@),
                targets@,
            ),
        },
{
    if targets.len() == 0 {
        return profiling_error("managed server has no prepared profiling targets");
    }
    let mut i: usize = 0;
    while i < targets.len()
        invariant
            i <= targets@.len(),
            targets@.len() > 0,
            forall|j: int| 0 <= j < i ==> controllable(#[trigger] targets@[j]),
        decreases targets@.len() - i,
    {
        if !is_controllable(&targets[i]) {
            assert(!controllable(targets@[i as int]));
            return profiling_error("profiling target does not support framework-range control");
        }
        i += 1;
    }
    assert(texts(window_ids@).len() == window_ids@.len());
    if window_ids.len() == 0 {
        return profiling_error("range-backed profiling requires static workload windows");
    }
    let count: usize = window_ids.len();
    let ghost ids = texts(window_ids@);
    let mut windows: Vec<CaptureWindowPlan> = Vec::new();
    let mut i: usize = 0;
    assert(windows_of(windows@) =~= counted_windows(ids).take(0));
    while i < count
        invariant
            count == window_ids@.len(),
            ids == texts(window_ids@),
            i <= count,
            windows_of(windows@) == counted_windows(ids).take(i as int),
        decreases count - i,
    {
        let ghost before = windows_of(windows@);
        let window = CaptureWindowPlan { id: window_ids[i].clone(), range_index: Some(i + 1) };
        windows.push(window);
        proof {
            assert(ids[i as int] == window_ids@[i as int]@);
            assert(windows_of(windows@) =~= before.push((window.id@, window.range_index)));
            assert(counted_windows(ids).take(i + 1) =~= counted_windows(ids).take(i as int).push(
                counted_windows(ids)[i as int],
            ));
        }
        i += 1;
    }
    assert(counted_windows(ids).take(i as int) =~= counted_windows(ids));
    let ghost all = Seq::new(
        targets@.len(),
        |i: int| planned_target(targets@[i], workload_id@, ids.len()),
    );
    let mut plans: Vec<CaptureTargetPlan> = Vec::new();
    let mut i: usize = 0;
    assert(target_plans_of(plans@) =~= all.take(0));
    while i < targets.len()
        invariant
            i <= targets@.len(),
            count == ids.len(),
            all == Seq::new(
                targets@.len(),
                |i: int| planned_target(targets@[i], workload_id@, ids.len()),
            ),
            target_plans_of(plans@) == all.take(i as int),
        decreases targets@.len() - i,
    {
        let ghost before = target_plans_of(plans@);
        let plan = plan_target(&targets[i], workload_id, count);
        plans.push(plan);
        proof {
            assert(target_plans_of(plans@) =~= before.push(plan@));
            assert(all.take(i + 1) =~= all.take(i as int).push(all[i as int]));
        }
        i += 1;
    }
    assert(all.take(i as int) =~= all);
    Ok(
        CapturePlanRecord {
            server_record_id: server_record_id.to_owned(),
            workload_id: workload_id.to_owned(),
            control: WindowControlKind::FrameworkRange,
            windows,
            targets: plans,
        },
    )
}

// ---------------------------------------------------------------------------
// Laws

/// Each window of a plan has one report on each target, and the window with the
/// number `n` is the one whose report carries it.
pub proof fn law_every_window_has_its_report(
    server: Seq<char>,
    workload: Seq<char>,
    ids: Seq<Seq<char>>,
    targets: Seq<ProfilerTargetRecord>,
    t: int,
    w: int,
)
    requires
        0 <= t < targets.len(),
        0 <= w < ids.len() <= usize::MAX,
    ensures
        planned(server, workload, ids, targets).targets[t].reports.len() == ids.len(),
        planned(server, workload, ids, targets).targets[t].expected_range_count == Some(
            ids.len() as usize,
        ),
        planned(server, workload, ids, targets).targets[t].reports[w] == report_text(
            output_base_of(targets[t], workload),
            planned(server, workload, ids, targets).windows[w].1,
        ),
        planned(server, workload, ids, targets).windows[w].1 == Some((w + 1) as usize),
{
}

/// The windows of a plan are those that were asked for, in their order, and its targets
/// those that were given: each keeps its process, session, role, replica and rank, and
/// writes below its own directory.
pub proof fn law_plan_is_that_of_its_windows_and_targets(
    server: Seq<char>,
    workload: Seq<char>,
    ids: Seq<Seq<char>>,
    targets: Seq<ProfilerTargetRecord>,
    t: int,
    w: int,
)
    requires
        0 <= t < targets.len(),
        0 <= w < ids.len() <= usize::MAX,
    ensures
        ({
            let plan = planned(server, workload, ids, targets);
            &&& plan.server_record_id == server
            &&& plan.workload_id == workload
            &&& plan.windows.len() == ids.len()
            &&& plan.windows[w].0 == ids[w]
            &&& plan.targets.len() == targets.len()
            &&& plan.targets[t].process_id == targets[t].process_id@
            &&& plan.targets[t].session == targets[t].session@
            &&& plan.targets[t].role_id == targets[t].role_id@
            &&& plan.targets[t].replica_id == targets[t].replica_id@
            &&& plan.targets[t].replica_index == targets[t].replica_index
            &&& plan.targets[t].rank == targets[t].rank
            &&& plan.targets[t].output_base == joined_path(
                joined_path(targets[t].runtime_root@, sanitized(workload)),
                "trace"@,
            )
            &&& plan.targets[t].reports[w].take(plan.targets[t].output_base.len() as int)
                == plan.targets[t].output_base
        }),
{
    let plan = planned(server, workload, ids, targets);
    let base = plan.targets[t].output_base;
    assert(plan.targets[t].reports[w].take(base.len() as int) =~= base);
}

/// Two windows of a target are written to two reports.
pub proof fn law_windows_have_reports_of_their_own(base: Seq<char>, a: usize, b: usize)
    requires
        a != b,
    ensures
        report_text(base, Some(a)) != report_text(base, Some(b)),
{
    let end = ".nsys-rep"@;
    let one = report_text(base, Some(a));
    let other = report_text(base, Some(b));
    if one == other {
        let from = (base + "."@).len() as int;
        assert(one.subrange(from, one.len() - end.len()) =~= decimal(a as nat));
        assert(other.subrange(from, other.len() - end.len()) =~= decimal(b as nat));
        crate::text::law_decimal_tells_numbers_apart(a as nat, b as nat);
    }
}

/// A capture can be planned exactly where there are targets, all of them controlled by
/// the framework, and windows.
pub proof fn law_capture_needs_targets_and_windows(
    ids: Seq<Seq<char>>,
    targets: Seq<ProfilerTargetRecord>,
)
    ensures
        plan_fault(ids, targets) is None <==> targets.len() > 0 && ids.len() > 0 && forall|i: int|
            0 <= i < targets.len() ==> (#[trigger] targets[i]).supported_window_controls@.contains(
                WindowControlKind::FrameworkRange,
            ),
{
    if forall|i: int|
        0 <= i < targets.len() ==> (#[trigger] targets[i]).supported_window_controls@.contains(
            WindowControlKind::FrameworkRange,
        ) {
        assert forall|i: int| 0 <= i < targets.len() implies controllable(#[trigger] targets[i]) by {
        }
    } else {
        let i = choose|i: int|
            0 <= i < targets.len() && !(#[trigger] targets[i]).supported_window_controls@.contains(
                WindowControlKind::FrameworkRange,
            );
        assert(!controllable(targets[i]));
    }
}

} // verus!
